//! Host functions that are exposed to Wasm modules: what runs when Wasm code
//! calls one of them.

use vstd::prelude::*;

use crate::bytes::{le_bytes, put_u32};
use crate::engine::State;
use crate::lexer::{truth_number, LexerRequest};
use crate::memory::{first_nul, first_nul_is_nearest, WasmMemoryView};
use crate::runtime::{
    caller_contents, caller_data_mut, caller_memory_data, caller_write_memory, error_message,
    new_error, overwritten, text_from_utf8_lossy, utf8_lossy, val_from_i32, val_i32, val_to_i32,
    StoreContents,
};
use crate::text::{decimal, join2, join3, to_decimal};

verus! {

/// The host functions.
#[derive(Clone, Copy, Debug, PartialEq, Eq, Structural)]
pub enum HostCallback {
    Abort,
    Noop,
    DebugMessage,
    LexerAdvance,
    LexerMarkEnd,
    LexerGetColumn,
    LexerIsAtIncludedRangeStart,
    LexerEof,
}

/// The text that a module asks to have printed: a string in its memory, which
/// is empty where no string is, and a number.
pub open spec fn debug_text(memory: Seq<u8>, address: i32, value: i32) -> Seq<char> {
    let message = if 0 <= address <= memory.len() {
        match first_nul(memory, address as int) {
            Some(length) => utf8_lossy(memory.subrange(address as int, address + length)),
            None => utf8_lossy(Seq::empty()),
        }
    } else {
        Seq::empty()
    };
    "DEBUG: "@ + message + " "@ + decimal(value as u32 as nat)
}

/// Composes what a module asks to have printed.
pub fn compose_debug_text(data: &[u8], address: i32, value: i32) -> (text: String)
    ensures
        text@ == debug_text(data@, address, value),
{
    let view = WasmMemoryView { data };
    let message = if address >= 0 && address as usize <= data.len() {
        let start = address as usize;
        let length = match view.string_length(address) {
            Some(length) => length,
            None => 0,
        };
        proof {
            first_nul_is_nearest(data@, address as int);
            assert(data@.subrange(start as int, start as int) =~= Seq::empty());
        }
        text_from_utf8_lossy(vstd::slice::slice_subrange(data, start, start + length))
    } else {
        proof {
            reveal_strlit("");
        }
        "".to_owned()
    };
    let start = join3("DEBUG: ", message.as_str(), " ");
    join2(start.as_str(), to_decimal(value as u32 as u64).as_str())
}

/// Whether a host function can run: the memory that it would use belongs to
/// the store.
pub open spec fn callback_ready(store: StoreContents) -> bool {
    store.state.memory matches Some(memory) ==> store.memories.contains_key(memory)
}

/// Whether the data of a store refers to the same memory, table and lexer
/// object as before.
pub open spec fn places_kept(before: State, after: State) -> bool {
    &&& after.memory == before.memory
    &&& after.table == before.table
    &&& after.lexer_address == before.lexer_address
}

/// Whether the data of a store is what running code can leave of it: it refers
/// to the same places as before, there is a lexer exactly where there was one,
/// and debug messages were only added.
pub open spec fn state_kept(before: State, after: State) -> bool {
    &&& places_kept(before, after)
    &&& after.current_lexer is Some == before.current_lexer is Some
    &&& before.debug_messages@.len() <= after.debug_messages@.len()
    &&& forall|i: int|
        0 <= i < before.debug_messages@.len() ==> #[trigger] after.debug_messages@[i]
            == before.debug_messages@[i]
}

/// Whether only the lexer differs, and there is one.
pub open spec fn lexer_ran(before: StoreContents, after: StoreContents) -> bool {
    &&& after.state.current_lexer is Some
    &&& after == before.with_state(
        State { current_lexer: after.state.current_lexer, ..before.state },
    )
}

/// Whether an error has the given text.
pub open spec fn fails_with(result: Result<(), wasmtime::Error>, message: Seq<char>) -> bool {
    result matches Err(error) && error_message(error) == message
}

/// The integer of one argument.
pub open spec fn argument(args: Seq<wasmtime::Val>, index: int) -> Option<i32> {
    if 0 <= index < args.len() {
        val_i32(args[index])
    } else {
        None
    }
}

/// Reads one argument as an integer.
fn read_argument(args: &[wasmtime::Val], index: usize) -> (value: Option<i32>)
    ensures
        value == argument(args@, index as int),
{
    if index < args.len() {
        val_to_i32(&args[index])
    } else {
        None
    }
}

/// Whether `value` was put into the first result, which there must be.
pub open spec fn result_set(
    before: Seq<wasmtime::Val>,
    after: Seq<wasmtime::Val>,
    value: i32,
    result: Result<(), wasmtime::Error>,
) -> bool {
    if before.len() > 0 {
        &&& result is Ok
        &&& after == before.update(0, after[0])
        &&& val_i32(after[0]) == Some(value)
    } else {
        &&& fails_with(result, "host function without a result"@)
        &&& after == before
    }
}

/// Puts `value` into the first result.
fn set_result(results: &mut [wasmtime::Val], value: i32) -> (result: Result<(), wasmtime::Error>)
    ensures
        result_set(old(results)@, final(results)@, value, result),
{
    if results.len() == 0 {
        return Err(new_error("host function without a result"));
    }
    results[0] = val_from_i32(value);
    Ok(())
}

/// Ends the Wasm call that is under way.
pub fn callback_abort() -> (result: Result<(), wasmtime::Error>)
    ensures
        fails_with(result, "Wasm module called abort"@),
{
    Err(new_error("Wasm module called abort"))
}

/// Whether the first argument, if a result is wanted, became that result:
/// arguments and results share their slots.
pub open spec fn noop_done(
    args: Seq<wasmtime::Val>,
    before: Seq<wasmtime::Val>,
    after: Seq<wasmtime::Val>,
    result: Result<(), wasmtime::Error>,
) -> bool {
    if before.len() == 0 {
        result is Ok && after == before
    } else {
        match argument(args, 0) {
            Some(value) => result_set(before, after, value, result),
            None => fails_with(result, "host function without arguments"@) && after == before,
        }
    }
}

/// Does nothing.
pub fn callback_noop(args: &[wasmtime::Val], results: &mut [wasmtime::Val]) -> (result: Result<
    (),
    wasmtime::Error,
>)
    ensures
        noop_done(args@, old(results)@, final(results)@, result),
{
    if results.len() == 0 {
        return Ok(());
    }
    match read_argument(args, 0) {
        Some(value) => set_result(results, value),
        None => Err(new_error("host function without arguments")),
    }
}

/// Whether the text that the arguments ask for was queued.
pub open spec fn debug_message_queued(
    before: StoreContents,
    args: Seq<wasmtime::Val>,
    after: StoreContents,
    result: Result<(), wasmtime::Error>,
) -> bool {
    match (argument(args, 0), argument(args, 1), before.state.memory) {
        (Some(address), Some(value), Some(memory)) => {
            let messages = after.state.debug_messages@;
            &&& result is Ok
            &&& after == before.with_state(
                State { debug_messages: after.state.debug_messages, ..before.state },
            )
            &&& messages.len() == before.state.debug_messages@.len() + 1
            &&& messages.drop_last() == before.state.debug_messages@
            &&& messages.last()@ == debug_text(before.memories[memory], address, value)
        },
        (Some(_), Some(_), None) => fails_with(result, "store memory not initialized"@) && after
            == before,
        _ => fails_with(result, "host function without arguments"@) && after == before,
    }
}

/// Queues a text that a module asks to have printed.
pub fn callback_debug_message(
    caller: &mut wasmtime::Caller<'_, State>,
    args: &[wasmtime::Val],
) -> (result: Result<(), wasmtime::Error>)
    requires
        callback_ready(caller_contents(*old(caller))),
    ensures
        debug_message_queued(
            caller_contents(*old(caller)),
            args@,
            caller_contents(*final(caller)),
            result,
        ),
{
    let (address, value) = match (read_argument(args, 0), read_argument(args, 1)) {
        (Some(address), Some(value)) => (address, value),
        _ => {
            return Err(new_error("host function without arguments"));
        },
    };
    let memory = caller_data_mut(caller).memory;
    let text = match memory {
        Some(memory) => compose_debug_text(caller_memory_data(caller, memory), address, value),
        None => {
            return Err(new_error("store memory not initialized"));
        },
    };
    let state = caller_data_mut(caller);
    state.debug_messages.push(text);
    proof {
        assert(state.debug_messages@.drop_last() =~= caller_contents(
            *old(caller),
        ).state.debug_messages@);
    }
    Ok(())
}

/// Whether the lexer answered a request.
pub open spec fn answered(
    before: StoreContents,
    request: LexerRequest,
    after: StoreContents,
    answer: u32,
) -> bool {
    let lexer = before.state.current_lexer->0;
    lexer.functions.can_answer(
        lexer.data,
        request,
        after.state.current_lexer->0.data,
        answer,
    )
}

/// Whether the lexer advanced, skipping where the second argument is not zero,
/// and its lookahead, and nothing else of it, was published in Wasm memory.
pub open spec fn lexer_advanced(
    before: StoreContents,
    args: Seq<wasmtime::Val>,
    after: StoreContents,
    result: Result<(), wasmtime::Error>,
) -> bool {
    match (argument(args, 1), before.state.memory, before.state.current_lexer) {
        (Some(skip), Some(memory), Some(_)) => {
            let address = before.state.lexer_address as int;
            let bytes = before.memories[memory];
            let advanced = before.with_state(
                State { current_lexer: after.state.current_lexer, ..before.state },
            );
            &&& after.state.current_lexer is Some
            &&& answered(before, LexerRequest::Advance(skip != 0), after, 0)
            &&& if address + 4 <= bytes.len() {
                &&& result is Ok
                &&& after == advanced.with_memory(
                    memory,
                    overwritten(
                        bytes,
                        address,
                        le_bytes(after.state.current_lexer->0.data.lookahead as u32),
                    ),
                )
            } else {
                &&& fails_with(result, "lexer outside of the Wasm memory"@)
                &&& after == advanced
            }
        },
        (Some(_), None, _) => fails_with(result, "store memory not initialized"@) && after
            == before,
        (Some(_), _, None) => fails_with(result, "no lexer is active"@) && after == before,
        _ => fails_with(result, "host function without arguments"@) && after == before,
    }
}

/// Advances the lexer, then publishes the new lookahead in Wasm memory.
pub fn callback_lexer_advance(
    caller: &mut wasmtime::Caller<'_, State>,
    args: &[wasmtime::Val],
) -> (result: Result<(), wasmtime::Error>)
    requires
        callback_ready(caller_contents(*old(caller))),
    ensures
        lexer_advanced(
            caller_contents(*old(caller)),
            args@,
            caller_contents(*final(caller)),
            result,
        ),
{
    let skip = match read_argument(args, 1) {
        Some(value) => value != 0,
        None => {
            return Err(new_error("host function without arguments"));
        },
    };
    let state = caller_data_mut(caller);
    let memory = match state.memory {
        Some(memory) => memory,
        None => {
            return Err(new_error("store memory not initialized"));
        },
    };
    let address = state.lexer_address as usize;
    let lookahead = match &mut state.current_lexer {
        Some(lexer) => {
            lexer.functions.advance(&mut lexer.data, skip);
            lexer.data.lookahead
        },
        None => {
            return Err(new_error("no lexer is active"));
        },
    };
    if caller_write_memory(caller, memory, address, &put_u32(lookahead as u32)) {
        Ok(())
    } else {
        Err(new_error("lexer outside of the Wasm memory"))
    }
}

/// Whether the lexer, which there must be, marked the end of a token.
pub open spec fn end_marked(
    before: StoreContents,
    after: StoreContents,
    result: Result<(), wasmtime::Error>,
) -> bool {
    if before.state.current_lexer is Some {
        &&& result is Ok
        &&& lexer_ran(before, after)
        &&& answered(before, LexerRequest::MarkEnd, after, 0)
    } else {
        fails_with(result, "no lexer is active"@) && after == before
    }
}

/// Marks the end of the token.
pub fn callback_lexer_mark_end(caller: &mut wasmtime::Caller<'_, State>) -> (result: Result<
    (),
    wasmtime::Error,
>)
    ensures
        end_marked(caller_contents(*old(caller)), caller_contents(*final(caller)), result),
{
    match &mut caller_data_mut(caller).current_lexer {
        Some(lexer) => {
            lexer.functions.mark_end(&mut lexer.data);
            Ok(())
        },
        None => Err(new_error("no lexer is active")),
    }
}

/// Whether the lexer, which there must be, answered a request and its answer
/// became the result.
pub open spec fn lexer_answered(
    before: StoreContents,
    results_before: Seq<wasmtime::Val>,
    request: LexerRequest,
    after: StoreContents,
    results_after: Seq<wasmtime::Val>,
    result: Result<(), wasmtime::Error>,
) -> bool {
    if before.state.current_lexer is Some {
        &&& lexer_ran(before, after)
        &&& exists|answer: u32| #[trigger]
            answered(before, request, after, answer) && result_set(
                results_before,
                results_after,
                answer as i32,
                result,
            )
    } else {
        &&& fails_with(result, "no lexer is active"@)
        &&& after == before
        &&& results_after == results_before
    }
}

/// Asks the lexer for the column.
pub fn callback_lexer_get_column(
    caller: &mut wasmtime::Caller<'_, State>,
    results: &mut [wasmtime::Val],
) -> (result: Result<(), wasmtime::Error>)
    ensures
        lexer_answered(
            caller_contents(*old(caller)),
            old(results)@,
            LexerRequest::GetColumn,
            caller_contents(*final(caller)),
            final(results)@,
            result,
        ),
{
    let column = match &mut caller_data_mut(caller).current_lexer {
        Some(lexer) => lexer.functions.get_column(&mut lexer.data),
        None => {
            return Err(new_error("no lexer is active"));
        },
    };
    assert(answered(
        caller_contents(*old(caller)),
        LexerRequest::GetColumn,
        caller_contents(*caller),
        column,
    ));
    set_result(results, column as i32)
}

/// Asks the lexer whether an included range starts here.
pub fn callback_lexer_is_at_included_range_start(
    caller: &mut wasmtime::Caller<'_, State>,
    results: &mut [wasmtime::Val],
) -> (result: Result<(), wasmtime::Error>)
    ensures
        lexer_answered(
            caller_contents(*old(caller)),
            old(results)@,
            LexerRequest::IsAtIncludedRangeStart,
            caller_contents(*final(caller)),
            final(results)@,
            result,
        ),
{
    let starts = match &mut caller_data_mut(caller).current_lexer {
        Some(lexer) => lexer.functions.is_at_included_range_start(&mut lexer.data),
        None => {
            return Err(new_error("no lexer is active"));
        },
    };
    assert(answered(
        caller_contents(*old(caller)),
        LexerRequest::IsAtIncludedRangeStart,
        caller_contents(*caller),
        truth_number(starts),
    ));
    set_result(results, truth_value(starts) as i32)
}

/// Asks the lexer whether the input has ended.
pub fn callback_lexer_eof(
    caller: &mut wasmtime::Caller<'_, State>,
    results: &mut [wasmtime::Val],
) -> (result: Result<(), wasmtime::Error>)
    ensures
        lexer_answered(
            caller_contents(*old(caller)),
            old(results)@,
            LexerRequest::Eof,
            caller_contents(*final(caller)),
            final(results)@,
            result,
        ),
{
    let ended = match &mut caller_data_mut(caller).current_lexer {
        Some(lexer) => lexer.functions.eof(&mut lexer.data),
        None => {
            return Err(new_error("no lexer is active"));
        },
    };
    assert(answered(
        caller_contents(*old(caller)),
        LexerRequest::Eof,
        caller_contents(*caller),
        truth_number(ended),
    ));
    set_result(results, truth_value(ended) as i32)
}

/// What a truth value is as an integer.
pub fn truth_value(value: bool) -> (answer: u32)
    ensures
        answer == truth_number(value),
{
    if value {
        1
    } else {
        0
    }
}

/// What a host function does to the store and to its results.
pub open spec fn callback_does(
    callback: HostCallback,
    before: StoreContents,
    args: Seq<wasmtime::Val>,
    results_before: Seq<wasmtime::Val>,
    after: StoreContents,
    results_after: Seq<wasmtime::Val>,
    result: Result<(), wasmtime::Error>,
) -> bool {
    let quiet = results_after == results_before;
    match callback {
        HostCallback::Abort => fails_with(result, "Wasm module called abort"@) && quiet && after
            == before,
        HostCallback::Noop => noop_done(args, results_before, results_after, result) && after
            == before,
        HostCallback::DebugMessage => debug_message_queued(before, args, after, result) && quiet,
        HostCallback::LexerAdvance => lexer_advanced(before, args, after, result) && quiet,
        HostCallback::LexerMarkEnd => end_marked(before, after, result) && quiet,
        HostCallback::LexerGetColumn => lexer_answered(
            before,
            results_before,
            LexerRequest::GetColumn,
            after,
            results_after,
            result,
        ),
        HostCallback::LexerIsAtIncludedRangeStart => lexer_answered(
            before,
            results_before,
            LexerRequest::IsAtIncludedRangeStart,
            after,
            results_after,
            result,
        ),
        HostCallback::LexerEof => lexer_answered(
            before,
            results_before,
            LexerRequest::Eof,
            after,
            results_after,
            result,
        ),
    }
}

/// Runs a host function.
pub fn run_callback(
    callback: HostCallback,
    caller: &mut wasmtime::Caller<'_, State>,
    args: &[wasmtime::Val],
    results: &mut [wasmtime::Val],
) -> (result: Result<(), wasmtime::Error>)
    requires
        callback_ready(caller_contents(*old(caller))),
    ensures
        callback_does(
            callback,
            caller_contents(*old(caller)),
            args@,
            old(results)@,
            caller_contents(*final(caller)),
            final(results)@,
            result,
        ),
{
    match callback {
        HostCallback::Abort => callback_abort(),
        HostCallback::Noop => callback_noop(args, results),
        HostCallback::DebugMessage => callback_debug_message(caller, args),
        HostCallback::LexerAdvance => callback_lexer_advance(caller, args),
        HostCallback::LexerMarkEnd => callback_lexer_mark_end(caller),
        HostCallback::LexerGetColumn => callback_lexer_get_column(caller, results),
        HostCallback::LexerIsAtIncludedRangeStart => callback_lexer_is_at_included_range_start(
            caller,
            results,
        ),
        HostCallback::LexerEof => callback_lexer_eof(caller, results),
    }
}

/// No host function takes the memory, the table or the place of the lexer away
/// from the store, drops the lexer or a debug message, or changes any table,
/// function, global or instance of it.
pub proof fn callbacks_keep_the_store(
    callback: HostCallback,
    before: StoreContents,
    args: Seq<wasmtime::Val>,
    results_before: Seq<wasmtime::Val>,
    after: StoreContents,
    results_after: Seq<wasmtime::Val>,
    result: Result<(), wasmtime::Error>,
)
    requires
        callback_ready(before),
        callback_does(callback, before, args, results_before, after, results_after, result),
    ensures
        callback_ready(after),
        state_kept(before.state, after.state),
        before.grows_to(after),
        after.tables == before.tables,
{
    match before.state.memory {
        Some(memory) => {
            assert(before.memories.contains_key(memory));
        },
        None => {},
    }
}

} // verus!
