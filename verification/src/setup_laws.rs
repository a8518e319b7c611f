//! What a new store is: where its lexer stands, what it takes from the stdlib,
//! and why it is refused.

use vstd::prelude::*;

use crate::bridge::{adds_globals, are_lexer_functions, is_builtin};
use crate::bytes::le_bytes;
use crate::call_laws::{bytes_of_a_number_are_the_number, overwriting_puts_bytes_in_place};
use crate::callbacks::HostCallback;
use crate::engine::StoreInner;
use crate::layout::LexerInWasmMemory;
use crate::load_laws::{is_given, is_given_by_the_store, stores_provide_what_the_names_say};
use crate::memory::memory_minimum;
use crate::module::{
    initializer, initializer_failed, initializer_run, initializer_step, initializers_ran,
};
use crate::reading::word;
use crate::runtime::{
    blank_pages, call_leads_to, compilation_refused, instantiation_leads_to, memory_growth_refused,
    memory_refused, module_source, overwritten, table_growth_refused, table_refused, wasm_exports,
    wasm_imports, Export, FuncKind, GlobalKind, Import, StoreContents,
};
use crate::setup::{
    all_provided, blank_lexer, lexer_added, memory_not_made, no_room, stdlib_instantiated,
    stdlib_lacks, stdlib_linked, stdlib_not_initialized, stdlib_refused, stdlib_set_up,
    stdlib_started, stdlib_unfit, store_begun, store_made, store_not_begun, store_refused,
    unexpected_import, StoreFailure,
};
use crate::stdlib::symbols_from;
use crate::text::texts;

verus! {

/// Whether a module asks for a memory of so many pages: it is the last memory
/// called `memory` that does.
pub open spec fn asks_for_pages(wanted: Seq<(Seq<char>, Option<u64>)>, pages: int) -> bool {
    exists|k: int|
        {
            &&& 0 <= k < wanted.len()
            &&& (#[trigger] wanted[k]).0 == "memory"@
            &&& wanted[k].1 matches Some(count) && count == pages
            &&& forall|i: int|
                k < i < wanted.len() && (#[trigger] wanted[i]).0 == "memory"@ ==> wanted[i].1
                    is None
        }
}

/// Whether a module asks for no memory.
pub open spec fn asks_for_no_memory(wanted: Seq<(Seq<char>, Option<u64>)>) -> bool {
    forall|i: int|
        0 <= i < wanted.len() && (#[trigger] wanted[i]).0 == "memory"@ ==> wanted[i].1 is None
}

/// The memory of a store has the pages that the last memory asks for, and is
/// missing only where none asks.
pub proof fn the_last_memory_counts(wanted: Seq<(Seq<char>, Option<u64>)>)
    ensures
        match memory_minimum(wanted) {
            Some(pages) => asks_for_pages(wanted, pages as int),
            None => asks_for_no_memory(wanted),
        },
    decreases wanted.len(),
{
    if wanted.len() > 0 {
        let last = wanted.len() - 1;
        let fewer = wanted.drop_last();
        assert(wanted[last] == wanted.last());
        the_last_memory_counts(fewer);
        if !(wanted.last().0 == "memory"@ && wanted.last().1 is Some) {
            match memory_minimum(fewer) {
                Some(pages) => {
                    let k = choose|k: int|
                        {
                            &&& 0 <= k < fewer.len()
                            &&& (#[trigger] fewer[k]).0 == "memory"@
                            &&& fewer[k].1 == Some(pages)
                            &&& forall|i: int|
                                k < i < fewer.len() && (#[trigger] fewer[i]).0 == "memory"@
                                    ==> fewer[i].1 is None
                        };
                    assert(wanted[k] == fewer[k]);
                    assert forall|i: int|
                        k < i < wanted.len() && (#[trigger] wanted[i]).0 == "memory"@ implies
                        wanted[i].1 is None by {
                        if i < last {
                            assert(wanted[i] == fewer[i]);
                        }
                    }
                },
                None => {
                    assert forall|i: int|
                        0 <= i < wanted.len() && (#[trigger] wanted[i]).0 == "memory"@ implies
                        wanted[i].1 is None by {
                        if i < last {
                            assert(wanted[i] == fewer[i]);
                        }
                    }
                },
            }
        }
    }
}

/// Whether the table entry at `index` runs a host function, which takes and
/// returns so many numbers.
pub open spec fn entry_runs(
    store: StoreInner,
    index: int,
    callback: HostCallback,
    params: nat,
    results: nat,
) -> bool {
    store.entries()[index] matches Some(func) && store.held().funcs.contains_key(func)
        && store.held().funcs[func] == FuncKind::Host(callback, params, results)
}

/// Whether the lexer object of a store stands right behind so many pages. It has
/// 28 bytes: its data is zero; then come the numbers of the last five entries of
/// the function table, which are the functions of the lexer. Modules are placed
/// right behind, in the memory and in the table.
pub open spec fn lexer_in_place(store: StoreInner, pages: int) -> bool {
    let at = store.lexer_address as int;
    let bytes = store.bytes();
    let base = store.entries().len() - 5;
    &&& at == 65536 * pages
    &&& at + 28 <= bytes.len()
    &&& base >= 0
    &&& word(bytes, at) == 0
    &&& word(bytes, at + 4) == 0
    &&& word(bytes, at + 8) == base
    &&& word(bytes, at + 12) == base + 1
    &&& word(bytes, at + 16) == base + 2
    &&& word(bytes, at + 20) == base + 3
    &&& word(bytes, at + 24) == base + 4
    &&& entry_runs(store, base, HostCallback::LexerAdvance, 2, 0)
    &&& entry_runs(store, base + 1, HostCallback::LexerMarkEnd, 1, 0)
    &&& entry_runs(store, base + 2, HostCallback::LexerGetColumn, 1, 1)
    &&& entry_runs(store, base + 3, HostCallback::LexerIsAtIncludedRangeStart, 1, 1)
    &&& entry_runs(store, base + 4, HostCallback::LexerEof, 1, 1)
    &&& store.current_memory_offset == at + 28
    &&& store.current_function_table_offset == base + 5
}

/// A number that fits into 32 bits survives being cast to a signed one and back.
proof fn indices_survive(index: u64)
    requires
        index <= u32::MAX,
    ensures
        (index as i32) as u32 == index,
{
    assert(index <= 0xffff_ffffu64 ==> (index as i32) as u32 == index) by (bit_vector);
}

/// Where the image of a lexer object stands, its seven numbers do.
proof fn lexer_image_holds_numbers(lexer: LexerInWasmMemory, bytes: Seq<u8>, at: int)
    requires
        0 <= at,
        at + 28 <= bytes.len(),
        bytes.subrange(at, at + 28) == lexer.image(),
    ensures
        word(bytes, at) == lexer.lookahead as u32,
        word(bytes, at + 4) == lexer.result_symbol,
        word(bytes, at + 8) == lexer.advance as u32,
        word(bytes, at + 12) == lexer.mark_end as u32,
        word(bytes, at + 16) == lexer.get_column as u32,
        word(bytes, at + 20) == lexer.is_at_included_range_start as u32,
        word(bytes, at + 24) == lexer.eof as u32,
{
    let image = lexer.image();
    assert forall|i: int| 0 <= i < 28 implies #[trigger] image[i] == bytes[at + i] by {
        assert(bytes.subrange(at, at + 28)[i] == bytes[at + i]);
    }
    number_stands_in(image, bytes, at, 0, lexer.lookahead as u32);
    number_stands_in(image, bytes, at, 4, lexer.result_symbol as u32);
    number_stands_in(image, bytes, at, 8, lexer.advance as u32);
    number_stands_in(image, bytes, at, 12, lexer.mark_end as u32);
    number_stands_in(image, bytes, at, 16, lexer.get_column as u32);
    number_stands_in(image, bytes, at, 20, lexer.is_at_included_range_start as u32);
    number_stands_in(image, bytes, at, 24, lexer.eof as u32);
}

/// A number whose bytes stand in an image stands where the image does.
proof fn number_stands_in(image: Seq<u8>, bytes: Seq<u8>, at: int, inside: int, number: u32)
    requires
        0 <= at,
        0 <= inside,
        inside + 4 <= image.len(),
        at + image.len() <= bytes.len(),
        forall|i: int| 0 <= i < image.len() ==> #[trigger] image[i] == bytes[at + i],
        image[inside] == le_bytes(number)[0],
        image[inside + 1] == le_bytes(number)[1],
        image[inside + 2] == le_bytes(number)[2],
        image[inside + 3] == le_bytes(number)[3],
    ensures
        word(bytes, at + inside) == number,
{
    let four = le_bytes(number);
    assert forall|i: int| 0 <= i < 4 implies bytes[at + inside + i] == #[trigger] four[i] by {
        assert(image[inside + i] == bytes[at + (inside + i)]);
    }
    bytes_of_a_number_are_the_number(bytes, at + inside, number);
}

/// The lexer of a store stands in its place.
proof fn added_lexers_are_in_place(
    before: StoreInner,
    funcs: Seq<wasmtime::Func>,
    pages: int,
    after: StoreInner,
)
    requires
        after.wf(),
        are_lexer_functions(after.held(), funcs),
        lexer_added(before, funcs, pages, after),
    ensures
        lexer_in_place(after, pages),
{
    let base = after.current_function_table_offset - 5;
    lexer_image_holds_numbers(blank_lexer(base), after.bytes(), after.lexer_address as int);
    indices_survive(base as u64);
    indices_survive((base + 1) as u64);
    indices_survive((base + 2) as u64);
    indices_survive((base + 3) as u64);
    indices_survive((base + 4) as u64);
    assert(0i32 as u32 == 0u32) by (bit_vector);
    assert(after.entries()[base + 0] == Some(funcs[0]));
    assert(after.entries()[base + 1] == Some(funcs[1]));
    assert(after.entries()[base + 2] == Some(funcs[2]));
    assert(after.entries()[base + 3] == Some(funcs[3]));
    assert(after.entries()[base + 4] == Some(funcs[4]));
}

/// A new store has its lexer right behind the pages that the stdlib asks for, of
/// which there are no more than 2048. It has no language, no error, and no lexer
/// to drive yet.
pub proof fn new_stores_have_their_lexer_in_place(
    store: StoreInner,
    stdlib_wasm: Seq<u8>,
    imports: Seq<char>,
)
    requires
        store_made(store, stdlib_wasm, imports),
    ensures
        store.instances@.len() == 0,
        store.current_instance is None,
        !store.has_error,
        store.held().state.current_lexer is None,
        store.held().state.lexer_address == store.lexer_address,
        exists|pages: int|
            {
                &&& 0 <= pages <= 2048
                &&& asks_for_pages(wasm_imports(stdlib_wasm), pages)
                &&& #[trigger] lexer_in_place(store, pages)
            },
{
    the_last_memory_counts(wasm_imports(stdlib_wasm));
    let pages = memory_minimum(wasm_imports(stdlib_wasm))->0 as int;
    let start = choose|start: StoreInner|
        store_begun(start, pages) && #[trigger] stdlib_set_up(start, stdlib_wasm, pages, store);
    let (instance, registered, funcs) = choose|
        instance: wasmtime::Instance,
        registered: StoreInner,
        funcs: Seq<wasmtime::Func>,
    |
        {
            &&& #[trigger] stdlib_started(start, stdlib_wasm, instance, registered)
            &&& are_lexer_functions(store.held(), funcs)
            &&& #[trigger] lexer_added(registered, funcs, pages, store)
            &&& store.held().instances.contains_key(instance)
            &&& stdlib_linked(
                store,
                store.held().instances[instance],
                wasm_exports(stdlib_wasm),
            )
        };
    added_lexers_are_in_place(registered, funcs, pages, store);
    assert(lexer_in_place(store, pages));
}

/// Adding the lexer touches nothing else: the entries that the table had stay,
/// and so do the bytes of the memory but for its own. What the memory has more is
/// zero.
pub proof fn adding_the_lexer_touches_nothing_else(
    before: StoreInner,
    funcs: Seq<wasmtime::Func>,
    pages: int,
    after: StoreInner,
)
    requires
        after.wf(),
        lexer_added(before, funcs, pages, after),
    ensures
        after.entries().len() == before.entries().len() + 5,
        forall|i: int|
            0 <= i < before.entries().len() ==> #[trigger] after.entries()[i]
                == before.entries()[i],
        after.bytes().len() == before.bytes().len() || after.bytes().len() == before.bytes().len()
            + 65536,
        forall|i: int|
            0 <= i < after.bytes().len() && !(after.lexer_address <= i < after.lexer_address + 28)
                ==> #[trigger] after.bytes()[i] == if i < before.bytes().len() {
                before.bytes()[i]
            } else {
                0
            },
{
    let image = blank_lexer(before.entries().len() as int).image();
    let at = after.lexer_address as int;
    let room = choose|room: Seq<u8>|
        (room == before.bytes() || room == before.bytes() + blank_pages(1))
            && after.current_memory_offset <= room.len() && after.bytes()
            == #[trigger] overwritten(room, at, image);
    assert(image.len() == 28);
    overwriting_puts_bytes_in_place(room, at, image);
    assert forall|i: int| 0 <= i < before.entries().len() implies #[trigger] after.entries()[i]
        == before.entries()[i] by {
        assert(after.entries().take(before.entries().len() as int)[i] == after.entries()[i]);
    }
}

/// Whether a function is the one that is exported under a name.
pub open spec fn is_exported(
    func: Option<wasmtime::Func>,
    names: Seq<Seq<char>>,
    exports: Map<Seq<char>, Export>,
    name: Seq<char>,
) -> bool {
    &&& names.contains(name)
    &&& exports.contains_key(name)
    &&& func matches Some(func) && exports[name] == Export::Func(func)
}

/// Whether a store has what the stdlib exports: the function that resets the
/// heap, the function of each symbol under the symbol's name, and the stack
/// pointer, unless there is none.
pub open spec fn has_exports(
    store: StoreInner,
    names: Seq<Seq<char>>,
    exports: Map<Seq<char>, Export>,
) -> bool {
    &&& is_exported(store.builtin_fns.reset_heap, names, exports, "reset_heap"@)
    &&& store.stdlib_fns@.len() == store.stdlib_symbols@.len()
    &&& forall|i: int|
        0 <= i < store.stdlib_fns@.len() ==> is_exported(
            #[trigger] store.stdlib_fns@[i],
            names,
            exports,
            store.stdlib_symbols@[i]@,
        )
    &&& names.contains("__stack_pointer"@) && exports.contains_key("__stack_pointer"@) ==> (
    exports["__stack_pointer"@] matches Export::Global(global) ==> store.stack_pointer_global
        == global)
}

/// Whether the functions of an instance that are to be called when it is
/// instantiated were called, in the order of the exports, and led from one state
/// of a store to another.
pub open spec fn was_initialized(
    exports: Map<Seq<char>, Export>,
    names: Seq<Seq<char>>,
    before: StoreContents,
    after: StoreContents,
) -> bool {
    exists|states: Seq<StoreContents>|
        {
            &&& #[trigger] states.len() == names.len() + 1
            &&& states[0] == before
            &&& states[names.len() as int] == after
            &&& forall|i: int|
                0 <= i < names.len() ==> initialized_by(
                    exports,
                    #[trigger] names[i],
                    states[i],
                    states[i + 1],
                )
        }
}

/// Whether a function is to be called when its module is instantiated.
pub open spec fn is_for_the_start(name: Seq<char>) -> bool {
    ||| name == "_initialize"@
    ||| name == "__wasm_apply_data_relocs"@
    ||| name == "__wasm_call_ctors"@
}

/// Whether what is exported under a name was called, if it is a function for the
/// start, and else nothing happened.
pub open spec fn initialized_by(
    exports: Map<Seq<char>, Export>,
    name: Seq<char>,
    before: StoreContents,
    after: StoreContents,
) -> bool {
    if is_for_the_start(name) && exports.contains_key(name) && exports[name] is Func {
        call_leads_to(before, exports[name]->Func_0, seq![], 0, Ok(seq![]), after)
    } else {
        after == before
    }
}

/// Initializers are called in the order of the exports.
pub proof fn initializers_run_in_order(
    exports: Map<Seq<char>, Export>,
    names: Seq<Seq<char>>,
    before: StoreContents,
    after: StoreContents,
)
    requires
        initializers_ran(exports, names, names.len(), before, after),
    ensures
        was_initialized(exports, names, before, after),
{
    let states = choose|states: Seq<StoreContents>|
        {
            &&& #[trigger] initializer_run(exports, names, states)
            &&& states.len() == names.len() + 1
            &&& states.first() == before
            &&& states.last() == after
        };
    assert forall|i: int| 0 <= i < names.len() implies initialized_by(
        exports,
        #[trigger] names[i],
        states[i],
        states[i + 1],
    ) by {
        assert(initializer_step(exports, names, states, i));
    }
    assert(states.len() == names.len() + 1);
}

/// Whether the stdlib was instantiated in a store with a blank memory of so many
/// pages, one empty table entry, and nothing placed yet. It was given, for each
/// name that it imports and in their order, what the store has under that name.
pub open spec fn stdlib_was_given(
    start: StoreInner,
    pages: int,
    stdlib_wasm: Seq<u8>,
    ready: StoreContents,
    imports: Seq<Import>,
) -> bool {
    let wanted = wasm_imports(stdlib_wasm);
    &&& start.bytes().len() == 65536 * pages
    &&& forall|i: int| 0 <= i < start.bytes().len() ==> #[trigger] start.bytes()[i] == 0
    &&& start.entries() == seq![None::<wasmtime::Func>]
    &&& start.held().globals[start.stack_pointer_global] == GlobalKind::Other
    &&& start.current_memory_offset == 0
    &&& start.current_function_table_offset == 0
    &&& imports.len() == wanted.len()
    &&& forall|i: int|
        0 <= i < wanted.len() ==> is_given_by_the_store((#[trigger] wanted[i]).0) && is_given(
            start,
            ready,
            wanted[i].0,
            imports[i],
        )
}

/// Whether the stdlib was instantiated and initialized, and the store has what it
/// exports.
pub open spec fn has_stdlib(
    store: StoreInner,
    stdlib_wasm: Seq<u8>,
    start: StoreInner,
    ready: StoreContents,
    imports: Seq<Import>,
    instance: wasmtime::Instance,
    instantiated: StoreContents,
    initialized: StoreContents,
) -> bool {
    let names = wasm_exports(stdlib_wasm);
    &&& exists|module: wasmtime::Module|
        module_source(module) == stdlib_wasm && #[trigger] instantiation_leads_to(
            ready,
            module,
            imports,
            Ok(instance),
            instantiated,
        )
    &&& was_initialized(instantiated.instances[instance], names, instantiated, initialized)
    &&& store.held().instances.contains_key(instance)
    &&& has_exports(store, names, store.held().instances[instance])
    &&& start.memory == store.memory
    &&& start.table == store.table
}

/// A new store has the stdlib: it was given what it imports, was initialized, and
/// the store has what it exports.
pub proof fn new_stores_have_the_stdlib(
    store: StoreInner,
    stdlib_wasm: Seq<u8>,
    imports: Seq<char>,
)
    requires
        store_made(store, stdlib_wasm, imports),
    ensures
        texts(store.stdlib_symbols@) == symbols_from(imports, 0),
        exists|
            pages: int,
            start: StoreInner,
            ready: StoreContents,
            given: Seq<Import>,
            instance: wasmtime::Instance,
            instantiated: StoreContents,
            initialized: StoreContents,
        |
            {
                &&& asks_for_pages(wasm_imports(stdlib_wasm), pages)
                &&& #[trigger] stdlib_was_given(start, pages, stdlib_wasm, ready, given)
                &&& #[trigger] has_stdlib(
                    store,
                    stdlib_wasm,
                    start,
                    ready,
                    given,
                    instance,
                    instantiated,
                    initialized,
                )
            },
{
    let names = wasm_exports(stdlib_wasm);
    the_last_memory_counts(wasm_imports(stdlib_wasm));
    let pages = memory_minimum(wasm_imports(stdlib_wasm))->0 as int;
    let start = choose|start: StoreInner|
        store_begun(start, pages) && #[trigger] stdlib_set_up(start, stdlib_wasm, pages, store);
    let (instance, registered, funcs) = choose|
        instance: wasmtime::Instance,
        registered: StoreInner,
        funcs: Seq<wasmtime::Func>,
    |
        {
            &&& #[trigger] stdlib_started(start, stdlib_wasm, instance, registered)
            &&& are_lexer_functions(store.held(), funcs)
            &&& #[trigger] lexer_added(registered, funcs, pages, store)
            &&& store.held().instances.contains_key(instance)
            &&& stdlib_linked(store, store.held().instances[instance], names)
        };
    let instantiated = choose|instantiated: StoreContents|
        #[trigger] stdlib_instantiated(start, stdlib_wasm, Ok(instance), instantiated)
            && initializers_ran(
            instantiated.instances[instance],
            names,
            names.len(),
            instantiated,
            registered.held(),
        );
    initializers_run_in_order(
        instantiated.instances[instance],
        names,
        instantiated,
        registered.held(),
    );
    linked_stores_have_the_exports(store, names, store.held().instances[instance]);
    let (module, given, ready) = given_to_the_stdlib(
        start,
        pages,
        stdlib_wasm,
        instance,
        instantiated,
    );
    assert(instantiation_leads_to(ready, module, given, Ok(instance), instantiated));
    assert(has_stdlib(
        store,
        stdlib_wasm,
        start,
        ready,
        given,
        instance,
        instantiated,
        registered.held(),
    ));
}

/// A store that is linked to the stdlib, and complete, has its exports.
proof fn linked_stores_have_the_exports(
    store: StoreInner,
    names: Seq<Seq<char>>,
    exports: Map<Seq<char>, Export>,
)
    requires
        store.wf(),
        stdlib_linked(store, exports, names),
    ensures
        has_exports(store, names, exports),
{
    assert forall|i: int| 0 <= i < store.stdlib_fns@.len() implies is_exported(
        #[trigger] store.stdlib_fns@[i],
        names,
        exports,
        store.stdlib_symbols@[i]@,
    ) by {
        assert(store.stdlib_fns@[i] is Some);
        assert(texts(store.stdlib_symbols@)[i] == store.stdlib_symbols@[i]@);
    }
}

/// What the stdlib was given when it was instantiated.
proof fn given_to_the_stdlib(
    start: StoreInner,
    pages: int,
    stdlib_wasm: Seq<u8>,
    instance: wasmtime::Instance,
    after: StoreContents,
) -> (way: (wasmtime::Module, Seq<Import>, StoreContents))
    requires
        0 <= pages,
        store_begun(start, pages),
        stdlib_instantiated(start, stdlib_wasm, Ok(instance), after),
    ensures
        module_source(way.0) == stdlib_wasm,
        stdlib_was_given(start, pages, stdlib_wasm, way.2, way.1),
        instantiation_leads_to(way.2, way.0, way.1, Ok(instance), after),
{
    let wanted = wasm_imports(stdlib_wasm);
    let (module, given, ready) = choose|
        module: wasmtime::Module,
        given: Seq<Import>,
        ready: StoreContents,
    |
        {
            &&& adds_globals(start.held(), ready)
            &&& #[trigger] all_provided(start, ready, wanted, given)
            &&& module_source(module) == stdlib_wasm
            &&& #[trigger] instantiation_leads_to(ready, module, given, Ok(instance), after)
        };
    assert forall|i: int| 0 <= i < wanted.len() implies is_given_by_the_store(
        (#[trigger] wanted[i]).0,
    ) && is_given(start, ready, wanted[i].0, given[i]) by {
        assert(ready.owns(given[i]));
        stores_provide_what_the_names_say(start, ready, wanted[i].0, given[i]);
    }
    assert(start.entries() =~= seq![None::<wasmtime::Func>]);
    (module, given, ready)
}

/// Whether a name is the first one wanted under which a store gives nothing.
pub open spec fn is_first_unknown(
    wanted: Seq<(Seq<char>, Option<u64>)>,
    name: Seq<char>,
) -> bool {
    &&& !is_given_by_the_store(name)
    &&& exists|i: int|
        {
            &&& 0 <= i < wanted.len()
            &&& (#[trigger] wanted[i]).0 == name
            &&& forall|k: int| 0 <= k < i ==> is_given_by_the_store((#[trigger] wanted[k]).0)
        }
}

/// Whether a symbol is the first one that an instance of the stdlib does not
/// export as a function of its own.
pub open spec fn is_first_missing(
    symbols: Seq<Seq<char>>,
    names: Seq<Seq<char>>,
    exports: Map<Seq<char>, Export>,
    symbol: Seq<char>,
) -> bool {
    exists|i: int|
        {
            &&& 0 <= i < symbols.len()
            &&& #[trigger] symbols[i] == symbol
            &&& {
                ||| !exports_function(names, exports, symbol)
                ||| is_for_the_start(symbol)
                ||| symbol == "reset_heap"@
                ||| exists|k: int| 0 <= k < i && #[trigger] symbols[k] == symbol
            }
            &&& forall|k: int|
                0 <= k < i ==> exports_function(names, exports, #[trigger] symbols[k])
        }
}

/// Whether a function is exported under a name.
pub open spec fn exports_function(
    names: Seq<Seq<char>>,
    exports: Map<Seq<char>, Export>,
    name: Seq<char>,
) -> bool {
    names.contains(name) && exports.contains_key(name) && exports[name] is Func
}

/// Whether a store was refused for a reason, with the number of its kind and its
/// text: two where the stdlib cannot be compiled or asks for no memory; three
/// where it cannot be instantiated, or imports or lacks something; four where
/// there is no room.
pub open spec fn is_refusal(
    kind: u32,
    message: Seq<char>,
    wasm: Seq<u8>,
    imports: Seq<char>,
    detail: Seq<char>,
) -> bool {
    let wanted = wasm_imports(wasm);
    ||| {
        &&& kind == 2
        &&& message == "failed to compile Wasm stdlib: "@ + detail
        &&& compilation_refused(wasm, detail)
    }
    ||| {
        &&& kind == 2
        &&& message == "Wasm stdlib is missing the 'memory' import"@
        &&& asks_for_no_memory(wanted)
    }
    ||| {
        &&& kind == 3
        &&& message == "unexpected import in Wasm stdlib: "@ + detail + "\n"@
        &&& is_first_unknown(wanted, detail)
    }
    ||| {
        &&& kind == 3
        &&& message == "failed to instantiate Wasm stdlib module: "@ + detail
        &&& instantiation_failed(wasm, detail)
    }
    ||| {
        &&& kind == 3
        &&& message == "trap when calling stdlib relocation function: "@ + detail + "\n"@
        &&& call_failed(0, detail)
    }
    ||| {
        &&& kind == 3
        &&& message == "missing malloc reset function in Wasm stdlib"@
        &&& exists|exports: Map<Seq<char>, Export>|
            !#[trigger] exports_function(wasm_exports(wasm), exports, "reset_heap"@)
    }
    ||| {
        &&& kind == 3
        &&& message == "missing exported symbol in Wasm stdlib: "@ + detail
        &&& exists|exports: Map<Seq<char>, Export>|
            #[trigger] is_first_missing(
                symbols_from(imports, 0),
                wasm_exports(wasm),
                exports,
                detail,
            )
    }
    ||| {
        &&& kind == 4
        &&& message == "failed to allocate Wasm memory: "@ + detail
        &&& memory_was_refused(wanted, detail)
    }
    ||| {
        &&& kind == 4
        &&& message == "failed to allocate Wasm table: "@ + detail
        &&& exists|store: StoreContents| #[trigger] table_refused(store, 1, 4294967295, detail)
    }
    ||| {
        &&& kind == 4
        &&& message == "failed to grow Wasm table to initial size: "@ + detail
        &&& detail == "too many entries"@ || exists|store: StoreContents, table: wasmtime::Table|
            #[trigger] table_growth_refused(store, table, 5, detail)
    }
}

/// Whether a call without arguments can fail with an error of the given text.
pub open spec fn call_failed(result_count: nat, text: Seq<char>) -> bool {
    exists|before: StoreContents, func: wasmtime::Func, after: StoreContents|
        #[trigger] fails(before, func, result_count, text, after)
}

/// Whether a call of a function without arguments fails.
pub open spec fn fails(
    before: StoreContents,
    func: wasmtime::Func,
    result_count: nat,
    text: Seq<char>,
    after: StoreContents,
) -> bool {
    call_leads_to(before, func, seq![], result_count, Err(text), after)
}

/// Whether instantiating a module can fail with an error of the given text.
pub open spec fn instantiation_failed(wasm: Seq<u8>, text: Seq<char>) -> bool {
    exists|
        ready: StoreContents,
        module: wasmtime::Module,
        imports: Seq<Import>,
        after: StoreContents,
    |
        #[trigger] instantiation_leads_to(ready, module, imports, Err(text), after)
            && module_source(module) == wasm
}

/// Whether the memory that is asked for was refused: it has more than 2048 pages,
/// or the runtime refuses to make it, or to grow it by the one page of the lexer.
pub open spec fn memory_was_refused(
    wanted: Seq<(Seq<char>, Option<u64>)>,
    detail: Seq<char>,
) -> bool {
    ||| {
        &&& detail == "minimum exceeds the maximum"@
        &&& exists|pages: int| #[trigger] asks_for_pages(wanted, pages) && pages > 2048
    }
    ||| exists|pages: u64, store: StoreContents|
        asks_for_pages(wanted, pages as int) && #[trigger] memory_is_refused(
            store,
            pages,
            detail,
        )
    ||| {
        &&& detail == "no room for the lexer"@
        &&& exists|store: StoreContents, memory: wasmtime::Memory|
            #[trigger] memory_growth_refused(store, memory, 1)
    }
}

/// Whether the runtime refuses to make a memory of so many pages, which may grow
/// to 2048.
pub open spec fn memory_is_refused(store: StoreContents, pages: u64, text: Seq<char>) -> bool {
    memory_refused(store, pages as u32, 2048, text)
}

/// A store that is refused is refused for one of these reasons.
pub proof fn refused_stores_have_their_kind(
    stdlib_wasm: Seq<u8>,
    imports: Seq<char>,
    failure: StoreFailure,
)
    requires
        store_refused(stdlib_wasm, imports, failure),
    ensures
        exists|detail: Seq<char>|
            #[trigger] is_refusal(
                failure.kind,
                failure.message@,
                stdlib_wasm,
                imports,
                detail,
            ),
{
    let kind = failure.kind;
    let message = failure.message@;
    the_last_memory_counts(wasm_imports(stdlib_wasm));
    if store_not_begun(stdlib_wasm, kind, message) {
        stores_not_begun_have_their_kind(stdlib_wasm, imports, kind, message);
    } else {
        let pages = memory_minimum(wasm_imports(stdlib_wasm))->0 as int;
        let (start, after) = choose|start: StoreInner, after: StoreContents|
            {
                &&& store_begun(start, pages)
                &&& texts(start.stdlib_symbols@) == symbols_from(imports, 0)
                &&& #[trigger] stdlib_refused(start, stdlib_wasm, kind, message, after)
                &&& failure.debug_messages == after.state.debug_messages
            };
        refused_stdlibs_have_their_kind(start, stdlib_wasm, imports, kind, message, after);
    }
}

/// A store that is refused before the stdlib was set up has nothing to print.
/// After that it gives what the stdlib asked to have printed until it was refused.
pub proof fn refused_stores_give_what_was_printed(
    stdlib_wasm: Seq<u8>,
    imports: Seq<char>,
    failure: StoreFailure,
)
    requires
        store_refused(stdlib_wasm, imports, failure),
    ensures
        store_not_begun(stdlib_wasm, failure.kind, failure.message@)
            && failure.debug_messages@.len() == 0 || exists|
            start: StoreInner,
            after: StoreContents,
        |
            {
                &&& #[trigger] stdlib_refused(
                    start,
                    stdlib_wasm,
                    failure.kind,
                    failure.message@,
                    after,
                )
                &&& failure.debug_messages@ == after.state.debug_messages@
                &&& start.held().state.debug_messages@.len() == 0
            },
{
}

/// A store that is not begun is refused for one of these reasons.
proof fn stores_not_begun_have_their_kind(
    stdlib_wasm: Seq<u8>,
    imports: Seq<char>,
    kind: u32,
    message: Seq<char>,
)
    requires
        store_not_begun(stdlib_wasm, kind, message),
    ensures
        exists|detail: Seq<char>|
            #[trigger] is_refusal(kind, message, stdlib_wasm, imports, detail),
{
    the_last_memory_counts(wasm_imports(stdlib_wasm));
    if kind == 2 {
        if exists|text: Seq<char>|
            #[trigger] compilation_refused(stdlib_wasm, text) && message
                == "failed to compile Wasm stdlib: "@ + text {
            let text = choose|text: Seq<char>|
                #[trigger] compilation_refused(stdlib_wasm, text) && message
                    == "failed to compile Wasm stdlib: "@ + text;
            assert(is_refusal(kind, message, stdlib_wasm, imports, text));
        } else {
            assert(is_refusal(kind, message, stdlib_wasm, imports, seq![]));
        }
    } else {
        let pages = memory_minimum(wasm_imports(stdlib_wasm))->0;
        assert(asks_for_pages(wasm_imports(stdlib_wasm), pages as int));
        if memory_not_made(pages, kind, message) {
            if pages > 2048 && message == "failed to allocate Wasm memory: "@
                + "minimum exceeds the maximum"@ {
                assert(is_refusal(
                    kind,
                    message,
                    stdlib_wasm,
                    imports,
                    "minimum exceeds the maximum"@,
                ));
            } else {
                let (store, text) = choose|store: StoreContents, text: Seq<char>|
                    #[trigger] memory_refused(store, pages as u32, 2048, text) && message
                        == "failed to allocate Wasm memory: "@ + text;
                assert(memory_is_refused(store, pages, text));
                assert(is_refusal(kind, message, stdlib_wasm, imports, text));
            }
        } else {
            let (store, text) = choose|store: StoreContents, text: Seq<char>|
                #[trigger] table_refused(store, 1, u32::MAX, text) && message
                    == "failed to allocate Wasm table: "@ + text;
            assert(is_refusal(kind, message, stdlib_wasm, imports, text));
        }
    }
}

/// A stdlib that cannot be set up is refused for one of these reasons.
proof fn refused_stdlibs_have_their_kind(
    start: StoreInner,
    stdlib_wasm: Seq<u8>,
    imports: Seq<char>,
    kind: u32,
    message: Seq<char>,
    after: StoreContents,
)
    requires
        start.linked(),
        texts(start.stdlib_symbols@) == symbols_from(imports, 0),
        stdlib_refused(start, stdlib_wasm, kind, message, after),
    ensures
        exists|detail: Seq<char>|
            #[trigger] is_refusal(kind, message, stdlib_wasm, imports, detail),
{
    let wanted = wasm_imports(stdlib_wasm);
    if unexpected_import(wanted, kind, message) {
        let i = choose|i: int|
            {
                &&& 0 <= i < wanted.len()
                &&& !is_builtin((#[trigger] wanted[i]).0)
                &&& forall|k: int| 0 <= k < i ==> is_builtin((#[trigger] wanted[k]).0)
                &&& message == "unexpected import in Wasm stdlib: "@ + wanted[i].0 + "\n"@
            };
        stores_provide_what_the_names_say(
            start,
            start.held(),
            wanted[i].0,
            Import::Memory(start.memory),
        );
        assert forall|k: int| 0 <= k < i implies is_given_by_the_store(
            (#[trigger] wanted[k]).0,
        ) by {
            stores_provide_what_the_names_say(
                start,
                start.held(),
                wanted[k].0,
                Import::Memory(start.memory),
            );
        }
        assert(is_first_unknown(wanted, wanted[i].0));
        assert(is_refusal(kind, message, stdlib_wasm, imports, wanted[i].0));
    } else if stdlib_unfit(start, stdlib_wasm, kind, message, after) {
        let (instance, registered) = choose|
            instance: wasmtime::Instance,
            registered: StoreInner,
        |
            {
                &&& #[trigger] stdlib_started(start, stdlib_wasm, instance, registered)
                &&& {
                    ||| stdlib_lacks(registered, kind, message)
                    ||| registered.complete() && no_room(registered, kind, message)
                }
            };
        unfit_stdlibs_have_their_kind(
            registered,
            registered.held().instances[instance],
            stdlib_wasm,
            imports,
            kind,
            message,
        );
    } else if exists|text: Seq<char>|
        #[trigger] stdlib_instantiated(start, stdlib_wasm, Err(text), after) && message
            == "failed to instantiate Wasm stdlib module: "@ + text {
        let text = choose|text: Seq<char>|
            #[trigger] stdlib_instantiated(start, stdlib_wasm, Err(text), after) && message
                == "failed to instantiate Wasm stdlib module: "@ + text;
        assert(is_refusal(kind, message, stdlib_wasm, imports, text));
    } else {
        let text = choose|text: Seq<char>|
            #[trigger] stdlib_not_initialized(start, stdlib_wasm, text, after)
                && message == "trap when calling stdlib relocation function: "@ + text + "\n"@;
        let (instance, instantiated) = choose|
            instance: wasmtime::Instance,
            instantiated: StoreContents,
        |
            #[trigger] stdlib_instantiated(start, stdlib_wasm, Ok(instance), instantiated)
                && initializer_failed(
                instantiated.instances[instance],
                wasm_exports(stdlib_wasm),
                instantiated,
                after,
                text,
            );
        failed_initializers_failed(
            instantiated.instances[instance],
            wasm_exports(stdlib_wasm),
            instantiated,
            after,
            text,
        );
        assert(is_refusal(kind, message, stdlib_wasm, imports, text));
    }
}

/// Where an initializer failed, a call did.
pub proof fn failed_initializers_failed(
    exports: Map<Seq<char>, Export>,
    names: Seq<Seq<char>>,
    before: StoreContents,
    after: StoreContents,
    text: Seq<char>,
)
    requires
        initializer_failed(exports, names, before, after, text),
    ensures
        call_failed(0, text),
{
    let (count, middle) = choose|count: nat, middle: StoreContents|
        {
            &&& count < names.len()
            &&& #[trigger] initializers_ran(exports, names, count, before, middle)
            &&& initializer(exports, names[count as int]) matches Some(func) && call_leads_to(
                middle,
                func,
                seq![],
                0,
                Err(text),
                after,
            )
        };
    let func = initializer(exports, names[count as int])->0;
    assert(fails(middle, func, 0, text, after));
}

/// A stdlib that lacks something, or leaves no room, is refused for one of these
/// reasons.
proof fn unfit_stdlibs_have_their_kind(
    registered: StoreInner,
    exports: Map<Seq<char>, Export>,
    stdlib_wasm: Seq<u8>,
    imports: Seq<char>,
    kind: u32,
    message: Seq<char>,
)
    requires
        stdlib_linked(registered, exports, wasm_exports(stdlib_wasm)),
        texts(registered.stdlib_symbols@) == symbols_from(imports, 0),
        stdlib_lacks(registered, kind, message) || no_room(registered, kind, message),
    ensures
        exists|detail: Seq<char>|
            #[trigger] is_refusal(kind, message, stdlib_wasm, imports, detail),
{
    if stdlib_lacks(registered, kind, message) {
        if registered.builtin_fns.reset_heap is None {
            assert(!exports_function(wasm_exports(stdlib_wasm), exports, "reset_heap"@));
            assert(is_refusal(kind, message, stdlib_wasm, imports, seq![]));
        } else {
            let i = choose|i: int|
                {
                    &&& 0 <= i < registered.stdlib_fns@.len()
                    &&& (#[trigger] registered.stdlib_fns@[i]) is None
                    &&& forall|k: int|
                        0 <= k < i ==> (#[trigger] registered.stdlib_fns@[k]) is Some
                    &&& message == "missing exported symbol in Wasm stdlib: "@
                        + registered.stdlib_symbols@[i]@
                };
            let symbol = registered.stdlib_symbols@[i]@;
            assert(texts(registered.stdlib_symbols@)[i] == symbol);
            let symbols = symbols_from(imports, 0);
            let names = wasm_exports(stdlib_wasm);
            assert forall|k: int| 0 <= k < i implies exports_function(
                names,
                exports,
                #[trigger] symbols[k],
            ) by {
                assert(registered.stdlib_fns@[k] is Some);
            }
            assert(symbols[i] == symbol);
            assert(is_first_missing(symbols, names, exports, symbol));
            assert(is_refusal(kind, message, stdlib_wasm, imports, symbol));
        }
    } else {
        let held = registered.held();
        if exists|text: Seq<char>|
            #[trigger] table_growth_refused(held, registered.table, 5, text)
                && message == "failed to grow Wasm table to initial size: "@ + text {
            let text = choose|text: Seq<char>|
                #[trigger] table_growth_refused(held, registered.table, 5, text)
                    && message == "failed to grow Wasm table to initial size: "@ + text;
            assert(is_refusal(kind, message, stdlib_wasm, imports, text));
        } else if message == "failed to grow Wasm table to initial size: "@
            + "too many entries"@ {
            assert(is_refusal(kind, message, stdlib_wasm, imports, "too many entries"@));
        } else {
            let ready = choose|ready: StoreContents|
                #[trigger] memory_growth_refused(ready, registered.memory, 1);
            assert(memory_growth_refused(ready, registered.memory, 1));
            assert(is_refusal(kind, message, stdlib_wasm, imports, "no room for the lexer"@));
        }
    }
}

} // verus!
