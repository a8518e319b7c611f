//! What the host functions do, one by one.

use vstd::prelude::*;

use crate::bytes::le_bytes;
use crate::call_laws::{bytes_of_a_number_are_the_number, overwriting_puts_bytes_in_place};
use crate::callbacks::{answered, callback_does, debug_text, result_set, HostCallback};
use crate::engine::State;
use crate::lexer::{truth_number, LexerRequest};
use crate::memory::{first_nul, first_nul_is_nearest};
use crate::reading::{c_string, cast_back_is_signed, cast_is_signed, pointer, signed};
use crate::runtime::{error_message, overwritten, utf8_lossy, val_i32, StoreContents};
use crate::text::{decimal, digit, signed_decimal};

verus! {

/// The number that decimal digits stand for.
pub open spec fn digits_value(digits: Seq<char>) -> int
    decreases digits.len(),
{
    if digits.len() == 0 {
        0
    } else {
        10 * digits_value(digits.drop_last()) + (digits.last() as int - '0' as int)
    }
}

/// Whether a text is a number in decimal: digits, at least one, and no more than
/// one if the first is a zero, that stand for it.
pub open spec fn reads_as(text: Seq<char>, number: int) -> bool {
    &&& text.len() > 0
    &&& forall|i: int| 0 <= i < text.len() ==> '0' <= #[trigger] text[i] <= '9'
    &&& text[0] == '0' ==> text.len() == 1
    &&& digits_value(text) == number
}

/// A number in decimal reads as the number.
pub proof fn decimals_read_as_the_number(number: nat)
    ensures
        reads_as(decimal(number), number as int),
    decreases number,
{
    if number < 10 {
        let text = decimal(number);
        assert(text =~= seq![digit(number as int)]);
        assert(text.drop_last() =~= Seq::empty());
        reveal_with_fuel(digits_value, 2);
    } else {
        let shorter = decimal(number / 10);
        decimals_read_as_the_number(number / 10);
        let text = decimal(number);
        assert(text =~= shorter.push(digit((number % 10) as int)));
        assert(text.drop_last() =~= shorter);
        assert(text[0] == shorter[0]);
        if shorter.len() == 1 && shorter[0] == '0' {
            reveal_with_fuel(digits_value, 2);
            assert(shorter.drop_last() =~= Seq::empty());
        }
    }
}

/// A number with a sign in decimal has a minus before its digits just where it is
/// negative.
pub proof fn signed_decimals_read_as_the_number(number: int)
    ensures
        number >= 0 ==> reads_as(signed_decimal(number), number),
        number < 0 ==> {
            let text = signed_decimal(number);
            &&& text.len() > 0
            &&& text[0] == '-'
            &&& reads_as(text.skip(1), -number)
        },
{
    if number < 0 {
        decimals_read_as_the_number((-number) as nat);
        assert(signed_decimal(number).skip(1) =~= decimal((-number) as nat));
    } else {
        decimals_read_as_the_number(number as nat);
    }
}

/// Whether a store has the lexer data that it could answer a request with, and
/// whether the answer could be that.
pub open spec fn can_have_answered(
    before: StoreContents,
    request: LexerRequest,
    after: StoreContents,
    answer: u32,
) -> bool {
    match (before.state.current_lexer, after.state.current_lexer) {
        (Some(lexer), Some(left)) => lexer.functions.can_answer(
            lexer.data,
            request,
            left.data,
            answer,
        ),
        _ => false,
    }
}

/// Whether a store is the same but for its lexer and the bytes of its memory.
pub open spec fn same_but_for_the_lexer(before: StoreContents, after: StoreContents) -> bool {
    &&& after == (StoreContents { memories: after.memories, state: after.state, ..before })
    &&& after.state == (State { current_lexer: after.state.current_lexer, ..before.state })
}

/// When Wasm code asks the lexer to advance, it skips the character just where
/// the second argument is not zero. Then the new lookahead stands where the lexer
/// stands in memory, and nothing else in the store has changed.
pub proof fn advancing_skips_where_it_is_told_to(
    before: StoreContents,
    args: Seq<wasmtime::Val>,
    results: Seq<wasmtime::Val>,
    after: StoreContents,
    results_after: Seq<wasmtime::Val>,
    result: Result<(), wasmtime::Error>,
    memory: wasmtime::Memory,
    skip: i32,
)
    requires
        callback_does(
            HostCallback::LexerAdvance,
            before,
            args,
            results,
            after,
            results_after,
            result,
        ),
        args.len() >= 2,
        val_i32(args[1]) == Some(skip),
        before.state.memory == Some(memory),
        before.state.current_lexer is Some,
    ensures
        skip == 0 ==> can_have_answered(before, LexerRequest::Advance(false), after, 0),
        skip != 0 ==> can_have_answered(before, LexerRequest::Advance(true), after, 0),
        results_after == results,
        same_but_for_the_lexer(before, after),
        before.memories.contains_key(memory) ==> after.memories.dom() == before.memories.dom(),
        forall|other: wasmtime::Memory|
            other != memory ==> #[trigger] after.memories[other] == before.memories[other],
        ({
            let at = before.state.lexer_address as int;
            let old_bytes = before.memories[memory];
            let new_bytes = after.memories[memory];
            &&& new_bytes.len() == old_bytes.len()
            &&& result is Ok <==> at + 4 <= old_bytes.len()
            &&& result matches Err(error) ==> error_message(error)
                == "lexer outside of the Wasm memory"@
            &&& result is Ok ==> pointer(new_bytes, at)
                == after.state.current_lexer->0.data.lookahead
            &&& forall|i: int|
                0 <= i < new_bytes.len() && !(result is Ok && at <= i < at + 4)
                    ==> #[trigger] new_bytes[i] == old_bytes[i]
        }),
{
    let at = before.state.lexer_address as int;
    let bytes = before.memories[memory];
    let lookahead = after.state.current_lexer->0.data.lookahead;
    if at + 4 <= bytes.len() {
        let number = lookahead as u32;
        let new_bytes = overwritten(bytes, at, le_bytes(number));
        overwriting_puts_bytes_in_place(bytes, at, le_bytes(number));
        assert forall|i: int| 0 <= i < 4 implies new_bytes[at + i] == #[trigger] le_bytes(
            number,
        )[i] by {}
        bytes_of_a_number_are_the_number(new_bytes, at, number);
        cast_back_is_signed(lookahead);
    }
    if before.memories.contains_key(memory) {
        assert(after.memories.dom() =~= before.memories.dom());
    }
}

/// When Wasm code asks the lexer to advance and there is no memory, no lexer or
/// no second argument, it is told so, and nothing happens.
pub proof fn advancing_needs_a_memory_a_lexer_and_arguments(
    before: StoreContents,
    args: Seq<wasmtime::Val>,
    results: Seq<wasmtime::Val>,
    after: StoreContents,
    results_after: Seq<wasmtime::Val>,
    result: Result<(), wasmtime::Error>,
)
    requires
        callback_does(
            HostCallback::LexerAdvance,
            before,
            args,
            results,
            after,
            results_after,
            result,
        ),
        ({
            ||| args.len() < 2
            ||| val_i32(args[1]) is None
            ||| before.state.memory is None
            ||| before.state.current_lexer is None
        }),
    ensures
        after == before,
        results_after == results,
        result matches Err(error) && error_message(error) == if args.len() < 2 || val_i32(
            args[1],
        ) is None {
            "host function without arguments"@
        } else if before.state.memory is None {
            "store memory not initialized"@
        } else {
            "no lexer is active"@
        },
{
}

/// When Wasm code asks the lexer to mark the end of a token, the lexer is asked
/// just that, and nothing else in the store changes. Without a lexer it fails.
pub proof fn marking_the_end_marks_the_end(
    before: StoreContents,
    args: Seq<wasmtime::Val>,
    results: Seq<wasmtime::Val>,
    after: StoreContents,
    results_after: Seq<wasmtime::Val>,
    result: Result<(), wasmtime::Error>,
)
    requires
        callback_does(
            HostCallback::LexerMarkEnd,
            before,
            args,
            results,
            after,
            results_after,
            result,
        ),
    ensures
        results_after == results,
        after.memories == before.memories,
        same_but_for_the_lexer(before, after),
        result is Ok <==> before.state.current_lexer is Some,
        result is Ok ==> can_have_answered(before, LexerRequest::MarkEnd, after, 0),
        result matches Err(error) ==> after == before && error_message(error)
            == "no lexer is active"@,
{
}

/// Whether a value is the given integer.
pub open spec fn tells(value: wasmtime::Val, number: int) -> bool {
    val_i32(value) matches Some(told) && told == number
}

/// Whether a host function asked the lexer something and gave its answer as the
/// result.
pub open spec fn asked_and_told(
    before: StoreContents,
    request: LexerRequest,
    results: Seq<wasmtime::Val>,
    after: StoreContents,
    results_after: Seq<wasmtime::Val>,
) -> bool {
    exists|answer: u32|
        {
            &&& #[trigger] can_have_answered(before, request, after, answer)
            &&& results_after.len() == results.len()
            &&& results.len() > 0 ==> tells(results_after[0], signed(answer as int))
            &&& forall|i: int| 0 < i < results.len() ==> #[trigger] results_after[i] == results[i]
        }
}

/// When Wasm code asks the lexer for the column, whether an included range starts
/// or whether the input has ended, the lexer is asked just that, and its answer
/// is the result. Nothing else in the store changes. It fails where there is no
/// lexer or no result to give.
pub proof fn questions_are_answered_by_the_lexer(
    callback: HostCallback,
    before: StoreContents,
    args: Seq<wasmtime::Val>,
    results: Seq<wasmtime::Val>,
    after: StoreContents,
    results_after: Seq<wasmtime::Val>,
    result: Result<(), wasmtime::Error>,
)
    requires
        callback_does(callback, before, args, results, after, results_after, result),
        ({
            ||| callback == HostCallback::LexerGetColumn
            ||| callback == HostCallback::LexerIsAtIncludedRangeStart
            ||| callback == HostCallback::LexerEof
        }),
    ensures
        after.memories == before.memories,
        same_but_for_the_lexer(before, after),
        result is Ok <==> before.state.current_lexer is Some && results.len() > 0,
        before.state.current_lexer is None ==> after == before && results_after == results,
        result matches Err(error) ==> error_message(error)
            == if before.state.current_lexer is None {
            "no lexer is active"@
        } else {
            "host function without a result"@
        },
        before.state.current_lexer is Some ==> {
            &&& callback == HostCallback::LexerGetColumn ==> asked_and_told(
                before,
                LexerRequest::GetColumn,
                results,
                after,
                results_after,
            )
            &&& callback == HostCallback::LexerIsAtIncludedRangeStart ==> asked_and_told(
                before,
                LexerRequest::IsAtIncludedRangeStart,
                results,
                after,
                results_after,
            )
            &&& callback == HostCallback::LexerEof ==> asked_and_told(
                before,
                LexerRequest::Eof,
                results,
                after,
                results_after,
            )
        },
{
    let request = match callback {
        HostCallback::LexerGetColumn => LexerRequest::GetColumn,
        HostCallback::LexerEof => LexerRequest::Eof,
        _ => LexerRequest::IsAtIncludedRangeStart,
    };
    if before.state.current_lexer is Some {
        let answer = choose|answer: u32|
            #[trigger] answered(before, request, after, answer) && result_set(
                results,
                results_after,
                answer as i32,
                result,
            );
        cast_is_signed(answer);
        assert(can_have_answered(before, request, after, answer));
        assert(asked_and_told(before, request, results, after, results_after));
    }
}

/// A truth value that a lexer answers is one where it is true, and zero where it
/// is not.
pub proof fn true_is_one(value: bool)
    ensures
        value ==> truth_number(value) == 1,
        !value ==> truth_number(value) == 0,
{
}

/// When Wasm code aborts, its call fails, and nothing else happens.
pub proof fn aborting_fails(
    before: StoreContents,
    args: Seq<wasmtime::Val>,
    results: Seq<wasmtime::Val>,
    after: StoreContents,
    results_after: Seq<wasmtime::Val>,
    result: Result<(), wasmtime::Error>,
)
    requires
        callback_does(
            HostCallback::Abort,
            before,
            args,
            results,
            after,
            results_after,
            result,
        ),
    ensures
        after == before,
        results_after == results,
        result matches Err(error) && error_message(error) == "Wasm module called abort"@,
{
}

/// A host function that does nothing leaves the store alone. Where a result is
/// wanted, it is the first argument; it fails only where there is none.
pub proof fn doing_nothing_gives_the_first_argument(
    before: StoreContents,
    args: Seq<wasmtime::Val>,
    results: Seq<wasmtime::Val>,
    after: StoreContents,
    results_after: Seq<wasmtime::Val>,
    result: Result<(), wasmtime::Error>,
)
    requires
        callback_does(
            HostCallback::Noop,
            before,
            args,
            results,
            after,
            results_after,
            result,
        ),
    ensures
        after == before,
        results_after.len() == results.len(),
        forall|i: int| 0 < i < results.len() ==> #[trigger] results_after[i] == results[i],
        result is Ok <==> results.len() == 0 || (args.len() > 0 && val_i32(args[0]) is Some),
        result is Ok && results.len() > 0 ==> val_i32(results_after[0]) == val_i32(args[0]),
        result matches Err(error) ==> results_after == results && error_message(error)
            == "host function without arguments"@,
{
}

/// Whether a text is what a module asks to have printed: the string in its
/// memory and the number behind it, without its sign.
pub open spec fn prints(text: Seq<char>, bytes: Seq<u8>, address: int, value: int) -> bool {
    exists|message: Seq<char>, digits: Seq<char>, number: int|
        {
            &&& text == "DEBUG: "@ + message + " "@ + digits
            &&& #[trigger] reads_as(digits, number)
            &&& 0 <= number < 4294967296
            &&& signed(number) == value
            &&& #[trigger] is_message(message, bytes, address)
        }
}

/// Whether a message is the string at an address: it is the text of its bytes up
/// to the NUL, and empty where no NUL ends it or where the address is not inside.
pub open spec fn is_message(message: Seq<char>, bytes: Seq<u8>, address: int) -> bool {
    &&& forall|length: int|
        #[trigger] c_string(bytes, address, length) ==> message == utf8_lossy(
            bytes.subrange(address, address + length),
        )
    &&& 0 <= address <= bytes.len() && (forall|i: int|
        address <= i < bytes.len() ==> #[trigger] bytes[i] != 0) ==> message == utf8_lossy(
        Seq::empty(),
    )
    &&& !(0 <= address <= bytes.len()) ==> message == Seq::<char>::empty()
}

/// What a module asks to have printed is the string that it points at, and the
/// number.
proof fn debug_texts_print(bytes: Seq<u8>, address: i32, value: i32)
    ensures
        prints(debug_text(bytes, address, value), bytes, address as int, value as int),
{
    let message = if 0 <= address <= bytes.len() {
        match first_nul(bytes, address as int) {
            Some(length) => utf8_lossy(bytes.subrange(address as int, address + length)),
            None => utf8_lossy(Seq::empty()),
        }
    } else {
        Seq::empty()
    };
    let number = (value as u32) as int;
    let digits = decimal(value as u32 as nat);
    decimals_read_as_the_number(value as u32 as nat);
    cast_back_is_signed(value);
    if 0 <= address <= bytes.len() {
        first_nul_is_nearest(bytes, address as int);
        assert forall|length: int|
            #[trigger] c_string(bytes, address as int, length) implies message == utf8_lossy(
            bytes.subrange(address as int, address + length),
        ) by {
            assert(bytes[address + length] == 0);
            let nearest = first_nul(bytes, address as int)->0 as int;
            if nearest < length {
                assert(bytes[address + nearest] == 0);
            }
            assert(nearest == length);
        }
    }
    assert(is_message(message, bytes, address as int));
    assert(reads_as(digits, number));
}

/// When Wasm code asks to have something printed, one text is put behind those
/// that wait to be printed: the string that the first argument points at, and the
/// second argument. Nothing else in the store changes.
pub proof fn debug_messages_wait_to_be_printed(
    before: StoreContents,
    args: Seq<wasmtime::Val>,
    results: Seq<wasmtime::Val>,
    after: StoreContents,
    results_after: Seq<wasmtime::Val>,
    result: Result<(), wasmtime::Error>,
    memory: wasmtime::Memory,
    address: i32,
    value: i32,
)
    requires
        callback_does(
            HostCallback::DebugMessage,
            before,
            args,
            results,
            after,
            results_after,
            result,
        ),
        args.len() >= 2,
        val_i32(args[0]) == Some(address),
        val_i32(args[1]) == Some(value),
        before.state.memory == Some(memory),
    ensures
        result is Ok,
        results_after == results,
        after == (StoreContents { state: after.state, ..before }),
        after.state == (State { debug_messages: after.state.debug_messages, ..before.state }),
        ({
            let waited = before.state.debug_messages@;
            let wait = after.state.debug_messages@;
            &&& wait.len() == waited.len() + 1
            &&& forall|i: int| 0 <= i < waited.len() ==> #[trigger] wait[i] == waited[i]
            &&& prints(
                wait[waited.len() as int]@,
                before.memories[memory],
                address as int,
                value as int,
            )
        }),
{
    let waited = before.state.debug_messages@;
    let wait = after.state.debug_messages@;
    debug_texts_print(before.memories[memory], address, value);
    assert forall|i: int| 0 <= i < waited.len() implies #[trigger] wait[i] == waited[i] by {
        assert(wait.drop_last()[i] == wait[i]);
    }
}

} // verus!
