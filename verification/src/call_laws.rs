//! What the calls of a parser do: which function runs on what, and what comes of
//! it.

use vstd::prelude::*;

use crate::api::{lexed_keyword, lexed_main, parsing_started, parsing_stopped, start_ended};
use crate::bytes::le_bytes;
use crate::calls::{
    call_ends, destruction_ended, heap_reset, heap_start, integer_call, lexed, lexer_call,
    prefix_copied, scanned, scanner_created, scanner_deserialized, scanner_serialized,
    serialization_ends, single, CopyDirection, LexFunction,
};
use crate::engine::{call_made, State, StoreInner};
use crate::laws::used_languages_have_a_record;
use crate::lexer::{lexer_data_at, CLexer, LexerData};
use crate::load::{language_used, WasmLanguage};
use crate::reading::{
    cast_back_is_signed, cast_is_signed, half, pointer, reads_what_stands, signed, word,
};
use crate::records::collected;
use crate::runtime::{call_leads_to, overwritten, StoreContents};

verus! {

/// What a call comes to: its results, or the text of an error.
pub type Outcome = Result<Seq<Option<i32>>, Seq<char>>;

/// The one number that a call returned.
pub open spec fn one_number(outcome: Outcome) -> Option<i32> {
    match outcome {
        Ok(values) => if values.len() == 1 {
            values[0]
        } else {
            None
        },
        Err(_) => None,
    }
}

/// Whether the data prefix of a lexer stands at `at`: the lookahead in four bytes,
/// the result symbol in two, and two more.
pub open spec fn prefix_stands(bytes: Seq<u8>, at: int, data: LexerData) -> bool {
    &&& pointer(bytes, at) == data.lookahead
    &&& half(bytes, at + 4) == data.result_symbol
    &&& half(bytes, at + 6) == data.padding
}

/// Whether a store holds the same but for `size` bytes at `at` of one memory.
pub open spec fn same_but_for(
    before: StoreContents,
    after: StoreContents,
    memory: wasmtime::Memory,
    at: int,
    size: int,
) -> bool {
    let old_bytes = before.memories[memory];
    let new_bytes = after.memories[memory];
    &&& after == (StoreContents { memories: after.memories, ..before })
    &&& after.memories == before.memories.insert(memory, new_bytes)
    &&& new_bytes.len() == old_bytes.len()
    &&& forall|i: int|
        0 <= i < new_bytes.len() && !(at <= i < at + size) ==> #[trigger] new_bytes[i]
            == old_bytes[i]
}

/// Bytes that were overwritten differ only where they were, and hold the new ones
/// there.
pub proof fn overwriting_puts_bytes_in_place(bytes: Seq<u8>, at: int, part: Seq<u8>)
    requires
        0 <= at,
        at + part.len() <= bytes.len(),
    ensures
        overwritten(bytes, at, part).len() == bytes.len(),
        forall|i: int|
            0 <= i < bytes.len() ==> #[trigger] overwritten(bytes, at, part)[i] == if at <= i < at
                + part.len() {
                part[i - at]
            } else {
                bytes[i]
            },
{
}

/// The bytes of a number are the number.
pub proof fn bytes_of_a_number_are_the_number(bytes: Seq<u8>, at: int, number: u32)
    requires
        0 <= at,
        at + 4 <= bytes.len(),
        forall|i: int| 0 <= i < 4 ==> bytes[at + i] == #[trigger] le_bytes(number)[i],
    ensures
        word(bytes, at) == number,
        le_bytes(number).len() == 4,
{
    assert(bytes[at + 0] == le_bytes(number)[0]);
    assert(bytes[at + 1] == le_bytes(number)[1]);
    assert(bytes[at + 2] == le_bytes(number)[2]);
    assert(bytes[at + 3] == le_bytes(number)[3]);
}

/// The image of a data prefix stands where it was written.
proof fn written_prefix_stands(bytes: Seq<u8>, at: int, data: LexerData)
    requires
        0 <= at,
        at + 8 <= bytes.len(),
    ensures
        data.image().len() == 8,
        prefix_stands(overwritten(bytes, at, data.image()), at, data),
{
    let image = data.image();
    let after = overwritten(bytes, at, image);
    overwriting_puts_bytes_in_place(bytes, at, image);
    assert(image.len() == 8);
    assert forall|i: int| 0 <= i < 8 implies #[trigger] after[at + i] == image[i] by {}
    let number = data.lookahead as u32;
    assert forall|i: int| 0 <= i < 4 implies after[at + i] == #[trigger] le_bytes(number)[i] by {
        assert(image[i] == le_bytes(number)[i]);
    }
    bytes_of_a_number_are_the_number(after, at, number);
    cast_back_is_signed(data.lookahead);
    assert(after[at + 4] == image[4]);
    assert(after[at + 5] == image[5]);
    assert(after[at + 6] == image[6]);
    assert(after[at + 7] == image[7]);
}

/// A data prefix that is read is the one that stands there.
proof fn read_prefix_stands(bytes: Seq<u8>, at: int)
    ensures
        prefix_stands(bytes, at, lexer_data_at(bytes, at)),
{
    reads_what_stands(bytes, at);
    reads_what_stands(bytes, at + 4);
    reads_what_stands(bytes, at + 6);
}

/// Whether a function was called for one number while the lexer's data prefix
/// stood in memory: which is the only thing that was changed before; whether it
/// found anything, which is where it returned a number other than zero and there
/// had been no error; and whether then, unless there is an error, the lexer has
/// the data prefix that stands in memory.
pub open spec fn worked_on_lexer(
    before: StoreInner,
    lexer: CLexer,
    func: wasmtime::Func,
    args: Seq<i32>,
    ready: StoreContents,
    outcome: Outcome,
    left: StoreContents,
    after: StoreInner,
    found: bool,
) -> bool {
    let at = before.lexer_address as int;
    let memory = before.memory;
    &&& same_but_for(before.held(), ready, memory, at, 8)
    &&& prefix_stands(ready.memories[memory], at, lexer.data)
    &&& call_leads_to(ready, func, args, 1, outcome, left)
    &&& after.has_error <==> before.has_error || one_number(outcome) is None
    &&& found <==> !after.has_error && one_number(outcome) != Some(0i32)
    &&& after == (StoreInner { store: after.store, has_error: after.has_error, ..before })
    &&& after.held() == left.with_state(after.held().state)
    &&& after.has_error ==> after.held() == left
    &&& !after.has_error ==> lexer_has_what_stands(left, after.held(), memory, at)
}

/// Whether the lexer has the data prefix that stands in memory, and else nothing
/// of the store's data changed.
pub open spec fn lexer_has_what_stands(
    left: StoreContents,
    after: StoreContents,
    memory: wasmtime::Memory,
    at: int,
) -> bool {
    &&& after.state.current_lexer matches Some(lexer) && left.state.current_lexer matches Some(
        called,
    ) && prefix_stands(left.memories[memory], at, lexer.data) && lexer.functions
        == called.functions
    &&& after.state == (State {
        current_lexer: after.state.current_lexer,
        ..left.state
    })
}

/// A call that works on the lexer works on the data prefix that stands in memory,
/// and gives it back.
proof fn lexer_calls_work_on_the_prefix(
    before: StoreInner,
    lexer: CLexer,
    func: wasmtime::Func,
    args: Seq<i32>,
    after: StoreInner,
    found: bool,
) -> (way: (StoreContents, Outcome, StoreContents))
    requires
        before.wf(),
        before.held().state.current_lexer == Some(lexer),
        lexer_call(before, func, args, after, found),
    ensures
        worked_on_lexer(before, lexer, func, args, way.0, way.1, way.2, after, found),
{
    let at = before.lexer_address as int;
    let (ready, called, value) = choose|
        ready: StoreInner,
        called: StoreInner,
        value: Option<i32>,
    |
        {
            &&& ready == (StoreInner { store: ready.store, ..before })
            &&& ready.held() == prefix_copied(before, CopyDirection::IntoWasm)
            &&& #[trigger] integer_call(ready, func, args, called, value)
            &&& match value {
                Some(value) => {
                    &&& after == (StoreInner { store: after.store, ..called })
                    &&& after.held() == prefix_copied(called, CopyDirection::OutOfWasm)
                    &&& found == (value != 0)
                },
                None => after == called && !found,
            }
        };
    written_prefix_stands(before.bytes(), at, lexer.data);
    overwriting_puts_bytes_in_place(before.bytes(), at, lexer.data.image());
    assert(same_but_for(before.held(), ready.held(), before.memory, at, 8));
    let outcome = integer_calls_come_to_one_number(ready, func, args, called, value);
    read_prefix_stands(called.bytes(), at);
    (ready.held(), outcome, called.held())
}

/// A call for a number gives the one number that was returned, unless there was
/// an error.
proof fn integer_calls_come_to_one_number(
    before: StoreInner,
    func: wasmtime::Func,
    args: Seq<i32>,
    after: StoreInner,
    result: Option<i32>,
) -> (outcome: Outcome)
    requires
        integer_call(before, func, args, after, result),
    ensures
        call_leads_to(before.held(), func, args, 1, outcome, after.held()),
        after == (StoreInner { store: after.store, has_error: after.has_error, ..before }),
        after.has_error <==> before.has_error || one_number(outcome) is None,
        result == if before.has_error {
            None
        } else {
            one_number(outcome)
        },
        before.held().state.current_lexer is Some == after.held().state.current_lexer is Some,
{
    let (called, values) = choose|called: StoreInner, values: Option<Seq<Option<i32>>>|
        #[trigger] call_made(before, func, args, 1, called, values) && call_ends(
            called,
            single(values),
            after,
            result,
        );
    match values {
        Some(values) => Ok(values),
        None => {
            let message = choose|message: Seq<char>|
                #[trigger] call_leads_to(
                    before.held(),
                    func,
                    args,
                    1,
                    Err(message),
                    called.held(),
                );
            Err(message)
        },
    }
}

/// Lexing with one of the lex functions of the current language calls it with
/// where the lexer stands in memory and the lex state.
proof fn lexing_calls_the_lex_function(
    before: StoreInner,
    lexer: CLexer,
    which: LexFunction,
    state: u16,
    after: StoreInner,
    found: bool,
)
    requires
        before.wf(),
        before.held().state.current_lexer == Some(lexer),
        lexed(before, which, state, after, found),
        match which {
            LexFunction::Main => before.active().lex_main_fn is Some,
            LexFunction::Keyword => before.active().lex_keyword_fn is Some,
        },
    ensures
        exists|
            func: wasmtime::Func,
            args: Seq<i32>,
            ready: StoreContents,
            outcome: Outcome,
            left: StoreContents,
        |
            {
                &&& which == LexFunction::Main ==> before.active().lex_main_fn == Some(func)
                &&& which == LexFunction::Keyword ==> before.active().lex_keyword_fn == Some(func)
                &&& args.len() == 2
                &&& args[0] == signed(before.lexer_address as int)
                &&& args[1] == state
                &&& #[trigger] worked_on_lexer(
                    before,
                    lexer,
                    func,
                    args,
                    ready,
                    outcome,
                    left,
                    after,
                    found,
                )
            },
{
    let func = match which {
        LexFunction::Main => before.active().lex_main_fn->0,
        LexFunction::Keyword => before.active().lex_keyword_fn->0,
    };
    let args = seq![before.lexer_address as i32, state as i32];
    cast_is_signed(before.lexer_address);
    let way = lexer_calls_work_on_the_prefix(before, lexer, func, args, after, found);
    assert(worked_on_lexer(before, lexer, func, args, way.0, way.1, way.2, after, found));
}

/// Lexing with the main lex function of the current language calls it with where
/// the lexer stands in memory and the lex state, in this order, while the lexer's
/// data prefix stands there.
pub proof fn lexing_calls_the_main_function(
    before: StoreInner,
    lexer: CLexer,
    state: u16,
    after: StoreInner,
    found: bool,
)
    requires
        before.wf(),
        before.held().state.current_lexer == Some(lexer),
        lexed_main(before, state, after, found),
        before.active().lex_main_fn is Some,
    ensures
        exists|args: Seq<i32>, ready: StoreContents, outcome: Outcome, left: StoreContents|
            {
                &&& args.len() == 2
                &&& args[0] == signed(before.lexer_address as int)
                &&& args[1] == state
                &&& #[trigger] worked_on_lexer(
                    before,
                    lexer,
                    before.active().lex_main_fn->0,
                    args,
                    ready,
                    outcome,
                    left,
                    after,
                    found,
                )
            },
{
    lexing_calls_the_lex_function(before, lexer, LexFunction::Main, state, after, found);
}

/// Lexing with the keyword lex function of the current language calls it in the
/// same way.
pub proof fn lexing_calls_the_keyword_function(
    before: StoreInner,
    lexer: CLexer,
    state: u16,
    after: StoreInner,
    found: bool,
)
    requires
        before.wf(),
        before.held().state.current_lexer == Some(lexer),
        lexed_keyword(before, state, after, found),
        before.active().lex_keyword_fn is Some,
    ensures
        exists|args: Seq<i32>, ready: StoreContents, outcome: Outcome, left: StoreContents|
            {
                &&& args.len() == 2
                &&& args[0] == signed(before.lexer_address as int)
                &&& args[1] == state
                &&& #[trigger] worked_on_lexer(
                    before,
                    lexer,
                    before.active().lex_keyword_fn->0,
                    args,
                    ready,
                    outcome,
                    left,
                    after,
                    found,
                )
            },
{
    lexing_calls_the_lex_function(before, lexer, LexFunction::Keyword, state, after, found);
}

/// Scanning calls the scan function of the current language with the scanner,
/// where the lexer stands in memory, and where the wanted row of the table of
/// valid tokens stands in memory, in this order, while the lexer's data prefix
/// stands there.
pub proof fn scanning_calls_the_scan_function(
    before: StoreInner,
    lexer: CLexer,
    scanner_address: u32,
    valid_tokens_ix: u32,
    after: StoreInner,
    found: bool,
)
    requires
        before.wf(),
        before.held().state.current_lexer == Some(lexer),
        scanned(before, scanner_address, valid_tokens_ix, after, found),
        before.active().scanner_scan_fn is Some,
    ensures
        exists|
            args: Seq<i32>,
            ready: StoreContents,
            outcome: Outcome,
            left: StoreContents,
        |
            {
                &&& args.len() == 3
                &&& args[0] == signed(scanner_address as int)
                &&& args[1] == signed(before.lexer_address as int)
                &&& (args[2] - before.active().external_states_address - valid_tokens_ix)
                    % 4294967296 == 0
                &&& #[trigger] worked_on_lexer(
                    before,
                    lexer,
                    before.active().scanner_scan_fn->0,
                    args,
                    ready,
                    outcome,
                    left,
                    after,
                    found,
                )
            },
{
    let func = before.active().scanner_scan_fn->0;
    let args = seq![
        scanner_address as i32,
        before.lexer_address as i32,
        before.active().external_states_address.wrapping_add(valid_tokens_ix as i32),
    ];
    cast_is_signed(before.lexer_address);
    cast_is_signed(scanner_address);
    cast_is_signed(valid_tokens_ix);
    let way = lexer_calls_work_on_the_prefix(before, lexer, func, args, after, found);
    assert(worked_on_lexer(before, lexer, func, args, way.0, way.1, way.2, after, found));
}

/// Without a lexer, lexing and scanning find nothing other than the function
/// does: the memory is as it was when it is called.
pub proof fn without_a_lexer_nothing_is_copied(
    before: StoreInner,
    func: wasmtime::Func,
    args: Seq<i32>,
    after: StoreInner,
    found: bool,
)
    requires
        before.wf(),
        before.held().state.current_lexer is None,
        lexer_call(before, func, args, after, found),
    ensures
        exists|outcome: Outcome|
            {
                &&& #[trigger] call_leads_to(
                    before.held(),
                    func,
                    args,
                    1,
                    outcome,
                    after.held(),
                )
                &&& found <==> !after.has_error && one_number(outcome) != Some(0i32)
                &&& after.has_error <==> before.has_error || one_number(outcome) is None
            },
{
    let (ready, called, value) = choose|
        ready: StoreInner,
        called: StoreInner,
        value: Option<i32>,
    |
        {
            &&& ready == (StoreInner { store: ready.store, ..before })
            &&& ready.held() == prefix_copied(before, CopyDirection::IntoWasm)
            &&& #[trigger] integer_call(ready, func, args, called, value)
            &&& match value {
                Some(value) => {
                    &&& after == (StoreInner { store: after.store, ..called })
                    &&& after.held() == prefix_copied(called, CopyDirection::OutOfWasm)
                    &&& found == (value != 0)
                },
                None => after == called && !found,
            }
        };
    let outcome = integer_calls_come_to_one_number(ready, func, args, called, value);
    assert(call_leads_to(before.held(), func, args, 1, outcome, after.held()));
}

/// Creating a scanner calls the create function of the current language without
/// arguments, and gives the number that it returned, as an address, or zero where
/// there is an error.
pub proof fn creating_gives_what_was_returned(
    before: StoreInner,
    after: StoreInner,
    address: u32,
)
    requires
        scanner_created(before, after, address),
        before.active().scanner_create_fn is Some,
    ensures
        exists|args: Seq<i32>, outcome: Outcome|
            {
                &&& args.len() == 0
                &&& #[trigger] call_leads_to(
                    before.held(),
                    before.active().scanner_create_fn->0,
                    args,
                    1,
                    outcome,
                    after.held(),
                )
                &&& after.has_error <==> before.has_error || one_number(outcome) is None
                &&& if after.has_error {
                    address == 0
                } else {
                    signed(address as int) == one_number(outcome)->0
                }
            },
{
    let func = before.active().scanner_create_fn->0;
    let result = choose|result: Option<i32>|
        #[trigger] integer_call(before, func, seq![], after, result) && address == match result {
            Some(result) => result as u32,
            None => 0,
        };
    let outcome = integer_calls_come_to_one_number(before, func, seq![], after, result);
    if let Some(number) = result {
        cast_back_is_signed(number);
    }
    assert(call_leads_to(before.held(), func, seq![], 1, outcome, after.held()));
}

/// Destroying a scanner calls the destroy function of the current language with
/// it, and is an error only where the call is. Without a current language nothing
/// happens.
pub proof fn destroying_calls_the_destroy_function(
    before: StoreInner,
    scanner_address: u32,
    after: StoreInner,
)
    requires
        destruction_ended(before, scanner_address, after),
        before.active().scanner_destroy_fn is Some,
    ensures
        before.current_instance is None ==> after == before,
        before.current_instance is Some ==> exists|args: Seq<i32>, outcome: Outcome|
            {
                &&& args.len() == 1
                &&& args[0] == signed(scanner_address as int)
                &&& #[trigger] call_leads_to(
                    before.held(),
                    before.active().scanner_destroy_fn->0,
                    args,
                    0,
                    outcome,
                    after.held(),
                )
                &&& after.has_error <==> before.has_error || outcome is Err
            },
{
    let func = before.active().scanner_destroy_fn->0;
    let args = seq![scanner_address as i32];
    cast_is_signed(scanner_address);
    if before.current_instance is Some {
        let values = choose|values: Option<Seq<Option<i32>>>|
            #[trigger] call_made(before, func, seq![scanner_address as i32], 0, after, values);
        let outcome = calls_come_to_an_outcome(before, func, args, 0, after, values);
        assert(call_leads_to(before.held(), func, args, 0, outcome, after.held()));
    }
}

/// A call comes to its results, or to an error.
proof fn calls_come_to_an_outcome(
    before: StoreInner,
    func: wasmtime::Func,
    args: Seq<i32>,
    result_count: nat,
    after: StoreInner,
    values: Option<Seq<Option<i32>>>,
) -> (outcome: Outcome)
    requires
        call_made(before, func, args, result_count, after, values),
    ensures
        call_leads_to(before.held(), func, args, result_count, outcome, after.held()),
        outcome is Ok <==> values is Some,
        after.has_error <==> before.has_error || outcome is Err,
        after == (StoreInner { store: after.store, has_error: after.has_error, ..before }),
{
    match values {
        Some(values) => Ok(values),
        None => {
            let message = choose|message: Seq<char>|
                #[trigger] call_leads_to(
                    before.held(),
                    func,
                    args,
                    result_count,
                    Err(message),
                    after.held(),
                );
            Err(message)
        },
    }
}

/// Whether a serialize function was called, and what it left in the serialization
/// buffer, which stands at the memory offset, was taken byte by byte, in its
/// order: as many bytes as it returned, where they fit.
pub open spec fn serialized_like_this(
    before: StoreInner,
    buffer_before: Seq<u8>,
    outcome: Outcome,
    left: StoreContents,
    after: StoreInner,
    buffer: Seq<u8>,
    length: u32,
) -> bool {
    let at = before.current_memory_offset as int;
    &&& after.has_error <==> {
        ||| before.has_error
        ||| one_number(outcome) is None
        ||| !(0 <= one_number(outcome)->0 <= 1024)
    }
    &&& after.held() == left
    &&& buffer.len() == buffer_before.len()
    &&& length == if after.has_error {
        0
    } else {
        one_number(outcome)->0 as int
    }
    &&& forall|i: int|
        0 <= i < buffer.len() ==> #[trigger] buffer[i] == if i < length {
            left.memories[before.memory][at + i]
        } else {
            buffer_before[i]
        }
}

/// Serializing calls the serialize function of the current language with the
/// scanner and the memory offset, in this order, and takes what it left there.
pub proof fn serializing_takes_what_was_left(
    before: StoreInner,
    scanner_address: u32,
    buffer_before: Seq<u8>,
    after: StoreInner,
    buffer: Seq<u8>,
    length: u32,
)
    requires
        before.wf(),
        after.wf(),
        buffer_before.len() >= 1024,
        scanner_serialized(before, scanner_address, buffer_before, after, buffer, length),
        before.active().scanner_serialize_fn is Some,
    ensures
        exists|args: Seq<i32>, outcome: Outcome, left: StoreContents|
            {
                &&& args.len() == 2
                &&& args[0] == signed(scanner_address as int)
                &&& args[1] == signed(before.current_memory_offset as int)
                &&& #[trigger] call_leads_to(
                    before.held(),
                    before.active().scanner_serialize_fn->0,
                    args,
                    1,
                    outcome,
                    left,
                )
                &&& serialized_like_this(
                    before,
                    buffer_before,
                    outcome,
                    left,
                    after,
                    buffer,
                    length,
                )
            },
{
    let func = before.active().scanner_serialize_fn->0;
    let args = seq![scanner_address as i32, before.current_memory_offset as i32];
    cast_is_signed(scanner_address);
    cast_is_signed(before.current_memory_offset);
    let (called, result) = choose|called: StoreInner, result: Option<i32>|
        #[trigger] integer_call(before, func, args, called, result) && serialization_ends(
            called,
            result,
            buffer_before,
            after,
            buffer,
            length,
        );
    let outcome = integer_calls_come_to_one_number(before, func, args, called, result);
    let at = before.current_memory_offset as int;
    if let Some(number) = result {
        cast_back_is_signed(number);
        if number as u32 <= 1024 {
            overwriting_puts_bytes_in_place(
                buffer_before,
                0,
                called.bytes().subrange(at, at + length),
            );
        }
    }
    assert(call_leads_to(before.held(), func, args, 1, outcome, called.held()));
}

/// Deserializing puts the bytes into the serialization buffer, which stands at
/// the memory offset, byte by byte and in their order, and nothing else anywhere.
/// It calls the deserialize function of the current language with the scanner,
/// the memory offset and the number of bytes, in this order.
pub proof fn deserializing_puts_the_bytes_in_place(
    before: StoreInner,
    scanner_address: u32,
    buffer: Seq<u8>,
    after: StoreInner,
)
    requires
        before.wf(),
        buffer.len() <= u32::MAX,
        before.current_memory_offset + buffer.len() <= before.bytes().len(),
        scanner_deserialized(before, scanner_address, buffer, after),
        before.active().scanner_deserialize_fn is Some,
    ensures
        exists|args: Seq<i32>, ready: StoreContents, outcome: Outcome|
            {
                &&& args.len() == 3
                &&& args[0] == signed(scanner_address as int)
                &&& args[1] == signed(before.current_memory_offset as int)
                &&& args[2] == signed(buffer.len() as int)
                &&& put_in_place(before, buffer, ready)
                &&& #[trigger] call_leads_to(
                    ready,
                    before.active().scanner_deserialize_fn->0,
                    args,
                    0,
                    outcome,
                    after.held(),
                )
                &&& after.has_error <==> before.has_error || outcome is Err
            },
{
    let func = before.active().scanner_deserialize_fn->0;
    let at = before.current_memory_offset as int;
    let args = seq![
        scanner_address as i32,
        before.current_memory_offset as i32,
        buffer.len() as i32,
    ];
    cast_is_signed(scanner_address);
    cast_is_signed(before.current_memory_offset);
    cast_is_signed(buffer.len() as u32);
    let (ready, values) = choose|ready: StoreInner, values: Option<Seq<Option<i32>>>|
        {
            &&& ready == (StoreInner { store: ready.store, ..before })
            &&& ready.held() == before.held().with_memory(
                before.memory,
                overwritten(before.bytes(), before.current_memory_offset as int, buffer),
            )
            &&& #[trigger] call_made(ready, func, args, 0, after, values)
        };
    overwriting_puts_bytes_in_place(before.bytes(), at, buffer);
    let outcome = calls_come_to_an_outcome(ready, func, args, 0, after, values);
    assert(put_in_place(before, buffer, ready.held()));
    assert(call_leads_to(ready.held(), func, args, 0, outcome, after.held()));
}

/// Whether `buffer` stands at the memory offset, and else nothing changed.
pub open spec fn put_in_place(
    before: StoreInner,
    buffer: Seq<u8>,
    ready: StoreContents,
) -> bool {
    let at = before.current_memory_offset as int;
    &&& same_but_for(before.held(), ready, before.memory, at, buffer.len() as int)
    &&& forall|i: int|
        0 <= i < buffer.len() ==> ready.memories[before.memory][at + i] == #[trigger] buffer[i]
}

/// What was serialized without an error and is deserialized stands, when the
/// deserialize function is called, just where the serialize function left it.
pub proof fn deserializing_brings_back_what_was_serialized(
    before: StoreInner,
    scanner_address: u32,
    buffer_before: Seq<u8>,
    after: StoreInner,
    buffer: Seq<u8>,
    length: u32,
    later: StoreInner,
    later_address: u32,
    last: StoreInner,
)
    requires
        before.wf(),
        after.wf(),
        later.wf(),
        buffer_before.len() >= 1024,
        scanner_serialized(before, scanner_address, buffer_before, after, buffer, length),
        before.active().scanner_serialize_fn is Some,
        !after.has_error,
        later.current_memory_offset == before.current_memory_offset,
        later.memory == before.memory,
        later.active().scanner_deserialize_fn is Some,
        scanner_deserialized(later, later_address, buffer.take(length as int), last),
    ensures
        exists|left: StoreContents, ready: StoreContents, outcome: Outcome, args: Seq<i32>|
            {
                &&& after.held() == left
                &&& #[trigger] call_leads_to(
                    ready,
                    later.active().scanner_deserialize_fn->0,
                    args,
                    0,
                    outcome,
                    last.held(),
                )
                &&& #[trigger] same_serialization(before, left, ready, length)
            },
{
    serializing_takes_what_was_left(
        before,
        scanner_address,
        buffer_before,
        after,
        buffer,
        length,
    );
    let (args, outcome, left) = choose|args: Seq<i32>, outcome: Outcome, left: StoreContents|
        {
            &&& args.len() == 2
            &&& args[0] == signed(scanner_address as int)
            &&& args[1] == signed(before.current_memory_offset as int)
            &&& #[trigger] call_leads_to(
                before.held(),
                before.active().scanner_serialize_fn->0,
                args,
                1,
                outcome,
                left,
            )
            &&& serialized_like_this(
                before,
                buffer_before,
                outcome,
                left,
                after,
                buffer,
                length,
            )
        };
    let part = buffer.take(length as int);
    deserializing_puts_the_bytes_in_place(later, later_address, part, last);
    let (args, ready, outcome) = choose|
        args: Seq<i32>,
        ready: StoreContents,
        outcome: Outcome,
    |
        {
            &&& args.len() == 3
            &&& args[0] == signed(later_address as int)
            &&& args[1] == signed(later.current_memory_offset as int)
            &&& args[2] == signed(part.len() as int)
            &&& put_in_place(later, part, ready)
            &&& #[trigger] call_leads_to(
                ready,
                later.active().scanner_deserialize_fn->0,
                args,
                0,
                outcome,
                last.held(),
            )
            &&& last.has_error <==> later.has_error || outcome is Err
        };
    let at = before.current_memory_offset as int;
    assert forall|i: int| 0 <= i < length implies ready.memories[before.memory][#[trigger] (at + i)]
        == left.memories[before.memory][at + i] by {
        assert(part[i] == buffer[i]);
    }
    assert(same_serialization(before, left, ready, length));
}

/// Whether two stores hold the same in the first bytes of the serialization
/// buffer.
pub open spec fn same_serialization(
    store: StoreInner,
    one: StoreContents,
    other: StoreContents,
    length: u32,
) -> bool {
    let at = store.current_memory_offset as int;
    forall|i: int|
        0 <= i < length ==> other.memories[store.memory][#[trigger] (at + i)]
            == one.memories[store.memory][at + i]
}

/// Whether the stdlib's reset function was called with where the scanner heap
/// starts, 1024 bytes behind the memory offset; and whether there is an error
/// afterwards just where that call is one.
pub open spec fn heap_was_reset(
    ready: StoreInner,
    outcome: Outcome,
    after: StoreInner,
) -> bool {
    exists|args: Seq<i32>|
        {
            &&& args.len() == 1
            &&& args[0] == signed(ready.current_memory_offset + 1024)
            &&& #[trigger] call_leads_to(
                ready.held(),
                ready.builtin_fns.reset_heap->0,
                args,
                0,
                outcome,
                after.held(),
            )
            &&& after.has_error <==> outcome is Err
        }
}

/// Readying a store for parsing sets the language and the lexer that it is given,
/// and resets the scanner heap. Whatever error there was before does not show.
pub proof fn earlier_errors_do_not_show(
    added: StoreInner,
    lexer: Option<CLexer>,
    index: Option<usize>,
    after: StoreInner,
)
    requires
        after.wf(),
        parsing_started(added, lexer, index, after),
    ensures
        after == (StoreInner {
            store: after.store,
            has_error: after.has_error,
            current_instance: index,
            ..added
        }),
        exists|ready: StoreInner, outcome: Outcome|
            {
                &&& ready.held().state == (State { current_lexer: lexer, ..added.held().state })
                &&& ready.held() == added.held().with_state(ready.held().state)
                &&& ready.current_memory_offset == added.current_memory_offset
                &&& ready.builtin_fns == added.builtin_fns
                &&& #[trigger] heap_was_reset(ready, outcome, after)
            },
{
    let ready = choose|ready: StoreInner|
        {
            &&& ready == (StoreInner {
                store: ready.store,
                current_instance: index,
                has_error: false,
                ..added
            })
            &&& ready.held() == added.held().with_state(
                State { current_lexer: lexer, ..added.held().state },
            )
            &&& #[trigger] heap_reset(ready, after)
        };
    let func = ready.builtin_fns.reset_heap->0;
    let args = seq![heap_start(ready) as i32];
    cast_is_signed(heap_start(ready));
    let values = choose|values: Option<Seq<Option<i32>>>|
        #[trigger] call_made(
            ready,
            func,
            seq![heap_start(ready) as i32],
            0,
            after,
            values,
        );
    let outcome = calls_come_to_an_outcome(ready, func, args, 0, after, values);
    assert(call_leads_to(ready.held(), func, args, 0, outcome, after.held()));
    assert(heap_was_reset(ready, outcome, after));
}

/// Stopping to parse takes the language and the lexer away, and resets the scanner
/// heap without them. Whatever error there was before does not show.
pub proof fn stopping_takes_the_language_away(before: StoreInner, after: StoreInner)
    requires
        after.wf(),
        parsing_stopped(before, after),
    ensures
        after.current_instance is None,
        after == (StoreInner {
            store: after.store,
            has_error: after.has_error,
            current_instance: after.current_instance,
            ..before
        }),
        exists|ready: StoreInner, outcome: Outcome|
            {
                &&& ready.held().state == (State { current_lexer: None, ..before.held().state })
                &&& ready.held() == before.held().with_state(ready.held().state)
                &&& ready.current_memory_offset == before.current_memory_offset
                &&& ready.builtin_fns == before.builtin_fns
                &&& #[trigger] heap_was_reset(ready, outcome, after)
            },
{
    earlier_errors_do_not_show(before, None, None, after);
}

/// Starting to parse with a language fails just where the language cannot be used
/// once the records of deleted languages are gone.
pub proof fn a_start_fails_where_the_language_cannot_be_used(
    before: StoreInner,
    lexer: CLexer,
    language: WasmLanguage,
    after: StoreInner,
    started: bool,
)
    requires
        start_ended(before, lexer, language, after, started),
    ensures
        exists|clean: StoreInner, added: StoreInner, index: Option<usize>|
            {
                &&& collected(before, clean)
                &&& #[trigger] language_used(clean, language, added, index)
                &&& started <==> index is Some
                &&& !started ==> after == added
                &&& started ==> after.current_instance == index && parsing_started(
                    added,
                    Some(lexer),
                    index,
                    after,
                )
            },
{
    let (clean, added, index) = choose|
        clean: StoreInner,
        added: StoreInner,
        index: Option<usize>,
    |
        {
            &&& collected(before, clean)
            &&& #[trigger] language_used(clean, language, added, index)
            &&& started == index is Some
            &&& if started {
                parsing_started(added, Some(lexer), index, after)
            } else {
                after == added
            }
        };
    assert(language_used(clean, language, added, index));
}

/// Where starting to parse with a language succeeds, the language is the current
/// one, the lexer was the given one when the scanner heap was reset, and there is
/// an error only if that reset failed: no earlier error shows.
pub proof fn a_start_forgets_earlier_errors(
    before: StoreInner,
    lexer: CLexer,
    language: WasmLanguage,
    after: StoreInner,
)
    requires
        before.wf(),
        after.wf(),
        start_ended(before, lexer, language, after, true),
    ensures
        after.current_instance is Some,
        after.active().language_id == language.language_id,
        exists|ready: StoreInner, outcome: Outcome|
            {
                &&& ready.held().state.current_lexer == Some(lexer)
                &&& ready.current_memory_offset == after.current_memory_offset
                &&& ready.builtin_fns == after.builtin_fns
                &&& #[trigger] heap_was_reset(ready, outcome, after)
            },
{
    let (clean, added, index) = choose|
        clean: StoreInner,
        added: StoreInner,
        index: Option<usize>,
    |
        {
            &&& collected(before, clean)
            &&& #[trigger] language_used(clean, language, added, index)
            &&& index is Some
            &&& parsing_started(added, Some(lexer), index, after)
        };
    used_languages_have_a_record(clean, language, added, index->0);
    earlier_errors_do_not_show(added, Some(lexer), index, after);
}

} // verus!
