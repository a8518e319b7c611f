//! What the calls of the interface come to when they follow each other: errors,
//! references, messages, and what C is given.

use vstd::prelude::*;
use vstd::utf8::{decode_utf8, encode_utf8};

use crate::api::{
    counts_as_wasm, data_of_lexer, debug_messages_taken, is_c_text, lexer_data_set, parsing_started,
    reference_released, reference_retained, reports_error, sentinel_ran,
};
use crate::call_laws::{earlier_errors_do_not_show, heap_was_reset, Outcome};
use crate::engine::{call_made, State, StoreInner};
use crate::language::{CLanguage, LexFn};
use crate::language_id::{can_count_down, can_count_up, counted_up, first_count};
use crate::laws::Counting;
use crate::lexer::{CLexer, LexerData};
use crate::load::{language_loaded, WasmLanguage};
use crate::memory::first_nul_is_nearest;
use crate::reading::{c_string, pointer, reads_what_stands, stands_at};
use crate::runtime::{module_engine, module_source};
use crate::statics::{
    are_pointers, string_address, string_copy, string_ok, string_table_holds_strings, strings_ok,
    StringTable,
};

verus! {

/// A store reports an error once a call failed, and goes on to report it after
/// calls that do not fail.
pub proof fn failed_calls_are_reported(
    before: StoreInner,
    func: wasmtime::Func,
    args: Seq<i32>,
    result_count: nat,
    after: StoreInner,
    values: Option<Seq<Option<i32>>>,
)
    requires
        call_made(before, func, args, result_count, after, values),
    ensures
        values is None ==> reports_error(after),
        reports_error(before) ==> reports_error(after),
        values is Some && !reports_error(before) ==> !reports_error(after),
{
}

/// Starting to parse, or stopping, makes a store report no error, unless the
/// scanner heap cannot be reset.
pub proof fn errors_are_forgotten_at_the_start(
    before: StoreInner,
    lexer: Option<CLexer>,
    index: Option<usize>,
    after: StoreInner,
)
    requires
        after.wf(),
        parsing_started(before, lexer, index, after),
    ensures
        exists|ready: StoreInner, outcome: Outcome|
            {
                &&& #[trigger] heap_was_reset(ready, outcome, after)
                &&& ready.builtin_fns == before.builtin_fns
                &&& outcome is Ok ==> !reports_error(after)
                &&& outcome is Err ==> reports_error(after)
            },
        after.current_instance == index,
{
    earlier_errors_do_not_show(before, lexer, index, after);
}

/// A language that is released has one reference less than was found, and is to
/// be dropped just where none is left. Then it is marked as deleted, for every
/// store.
pub proof fn the_last_release_drops(language: WasmLanguage, previous: u32, drop: bool)
    requires
        reference_released(language, previous, drop),
    ensures
        Counting::Release(previous).counts(language),
        drop <==> Counting::Release(previous).left() == 0,
        drop <==> Counting::Release(previous).drops(),
        drop ==> counted_up(language.language_id.is_deleted),
{
}

/// A language that is retained has one reference more than was found.
pub proof fn retaining_counts_up(language: WasmLanguage, previous: u32)
    requires
        reference_retained(language, previous),
    ensures
        Counting::Retain(previous).counts(language),
        Counting::Retain(previous).left() == previous + 1,
        counted_up(language.ref_count),
{
}

/// Counting is what its names say: a retain counts the references up, and a
/// release counts them down.
pub proof fn counting_is_up_and_down(language: WasmLanguage, count: u32)
    ensures
        Counting::Retain(count).counts(language) <==> can_count_up(language.ref_count, count),
        Counting::Release(count).counts(language) <==> can_count_down(language.ref_count, count),
        Counting::Retain(count).left() - Counting::Retain(count).found() == 1,
        Counting::Release(count).found() - Counting::Release(count).left() == 1,
        Counting::Retain(count).found() == count,
        Counting::Release(count).found() == count,
        !Counting::Retain(count).drops(),
        Counting::Release(count).drops() <==> count == 1,
{
}

/// A loaded language has one reference and is not deleted. It has the name, the
/// bytes and the engine that it was loaded with, and counts as backed by Wasm.
pub proof fn loaded_languages_are_new(
    before: StoreInner,
    language_name: Seq<char>,
    wasm: Seq<u8>,
    after: StoreInner,
    language: WasmLanguage,
)
    requires
        language_loaded(before, language_name, wasm, after, language),
    ensures
        first_count(language.ref_count) == 1,
        first_count(language.language_id.is_deleted) == 0,
        language.name@ == language_name,
        module_source(language.module) == wasm,
        module_engine(language.module) == before.engine,
        counts_as_wasm(language.language),
        forall|i: int| 0 <= i < language_name.len() ==> #[trigger] language_name[i] != '\0',
        forall|i: int|
            0 <= i < before.instances@.len() ==> (#[trigger] before.instances@[i]).language_id
                != language.language_id,
{
    assert forall|i: int| 0 <= i < language_name.len() implies #[trigger] language_name[i]
        != '\0' by {
        assert(!language_name.contains('\0'));
    }
}

/// A language without a lex function, or with a native one, is not backed by Wasm.
pub proof fn only_the_sentinel_is_wasm(language: CLanguage)
    ensures
        language.lex_fn is None ==> !counts_as_wasm(language),
        language.lex_fn == Some(LexFn::Native) ==> !counts_as_wasm(language),
        language.lex_fn == Some(LexFn::Sentinel) ==> counts_as_wasm(language),
{
}

/// The lex function that marks a language as backed by Wasm finds nothing, and
/// leaves the lexer where it is.
pub proof fn the_sentinel_finds_nothing(before: CLexer, after: CLexer, found: bool)
    requires
        sentinel_ran(before, after, found),
    ensures
        found == false,
        after.data.lookahead == before.data.lookahead,
        after.data.result_symbol == before.data.result_symbol,
        after.data == before.data,
        after.functions == before.functions,
{
}

/// The text of a failure reads back from what C is given, up to a NUL at the end.
pub proof fn failures_read_back(message: Seq<char>, bytes: Seq<u8>)
    requires
        is_c_text(message, bytes),
    ensures
        bytes.len() > 0,
        bytes[bytes.len() - 1] == 0,
        decode_utf8(bytes.take(bytes.len() - 1)) == message,
{
    vstd::utf8::encode_utf8_decode_utf8(message);
    assert(bytes.take(bytes.len() - 1) =~= encode_utf8(message));
}

/// What waits to be printed is taken once: all of it, in its order. After that
/// nothing waits, and nothing else has changed.
pub proof fn messages_are_taken_once(
    before: StoreInner,
    between: StoreInner,
    first: Seq<String>,
    after: StoreInner,
    second: Seq<String>,
)
    requires
        debug_messages_taken(before, between, first),
        debug_messages_taken(between, after, second),
    ensures
        first.len() == before.held().state.debug_messages@.len(),
        forall|i: int|
            0 <= i < first.len() ==> #[trigger] first[i]
                == before.held().state.debug_messages@[i],
        second.len() == 0,
        between == (StoreInner { store: between.store, ..before }),
        between.held().memories == before.held().memories,
        between.held().tables == before.held().tables,
        between.held().state == (State {
            debug_messages: between.held().state.debug_messages,
            ..before.held().state
        }),
{
}

/// Where there is a lexer, its data reads as it was set, and nothing else of the
/// store has changed. Where there is none, nothing changes.
pub proof fn lexer_data_reads_as_it_was_set(
    before: StoreInner,
    data: LexerData,
    after: StoreInner,
)
    requires
        lexer_data_set(before, data, after),
    ensures
        data_of_lexer(before) is Some ==> data_of_lexer(after) == Some(data),
        data_of_lexer(before) is None ==> after.held() == before.held(),
        data_of_lexer(before) is Some <==> before.held().state.current_lexer is Some,
        before.held().state.current_lexer matches Some(lexer) ==> data_of_lexer(before) == Some(
            lexer.data,
        ),
        after == (StoreInner { store: after.store, ..before }),
        after.held().memories == before.held().memories,
        after.held().tables == before.held().tables,
        after.held().state.debug_messages == before.held().state.debug_messages,
        before.held().state.current_lexer matches Some(lexer) ==> {
            &&& after.held().state.current_lexer is Some
            &&& after.held().state.current_lexer->0.functions == lexer.functions
        },
{
}

/// Whether the string at `to` is a copy of the one at `from`.
pub open spec fn same_string(source: Seq<u8>, from: int, copy: Seq<u8>, to: int) -> bool {
    forall|length: int| #[trigger] c_string(source, from, length) ==> c_string(copy, to, length)
        && stands_at(copy, to, source.subrange(from, from + length))
}

/// Once the strings of a copied table are placed at an address, each pointer is
/// null just where the entry in Wasm memory is, and else points at the same
/// string.
pub proof fn pointers_point_at_the_strings(
    table: StringTable,
    memory: Seq<u8>,
    array_address: int,
    count: int,
    buffer: usize,
    pointers: Seq<usize>,
    process: Seq<u8>,
    index: int,
)
    requires
        table.is_copy(memory, array_address, count),
        strings_ok(memory, array_address, count),
        are_pointers(table, buffer, pointers),
        buffer > 0,
        stands_at(process, buffer as int, table.scratch@),
        0 <= index < count,
    ensures
        pointers.len() == count,
        ({
            let from = pointer(memory, array_address + 4 * index);
            &&& from == 0 <==> pointers[index] == 0
            &&& from != 0 ==> same_string(memory, from, process, pointers[index] as int)
        }),
{
    let at = array_address + 4 * index;
    reads_what_stands(memory, at);
    let from = string_address(memory, array_address, index) as int;
    assert(pointers[index] == match table.array@[index] {
        Some(offset) => buffer + offset,
        None => 0,
    });
    if let Some(offset) = table.array@[index] {
        string_table_holds_strings(table, memory, array_address, count, index);
        let string = string_copy(memory, from);
        let scratch = table.scratch@;
        let to = pointers[index] as int;
        assert(string_ok(memory, array_address, index));
        first_nul_is_nearest(memory, from);
        assert forall|i: int| 0 <= i < string.len() implies #[trigger] process[to + i]
            == string[i] by {
            assert(scratch.subrange(offset as int, offset + string.len())[i] == scratch[offset
                + i]);
            assert(scratch[offset + i] == process[buffer + (offset + i)]);
        }
        assert forall|length: int| #[trigger] c_string(memory, from, length) implies c_string(
            process,
            to,
            length,
        ) && stands_at(process, to, memory.subrange(from, from + length)) by {
            assert(string.len() == length + 1) by {
                let nearest = string.len() - 1;
                assert(memory[from + length] == 0);
                if nearest < length {
                    assert(memory[from + nearest] == 0);
                }
            }
            assert forall|i: int| 0 <= i <= length implies #[trigger] process[to + i]
                == memory[from + i] by {
                assert(string[i] == memory[from + i]);
            }
            assert forall|i: int| 0 <= i < length implies process[#[trigger] (to + i)] != 0 by {
                assert(memory[from + i] != 0);
            }
        }
    }
}

} // verus!
