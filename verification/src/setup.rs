//! Making a store: compiling the stdlib, creating the memory, the table and the
//! globals, and instantiating the stdlib.

use vstd::prelude::*;

use crate::bridge::{
    adds_globals, are_lexer_functions, create_builtin_functions, create_lexer_functions, is_builtin,
    provide_builtin_import, provides,
};
use crate::callbacks::state_kept;
use crate::engine::{one_record_each, BuiltinFunctions, State, StoreInner};
use crate::error::{WasmErrorKind, WasmResult, ALLOCATE, COMPILE, INSTANTIATE};
use crate::layout::{LexerInWasmMemory, LEXER_SIZE};
use crate::memory::{memory_minimum, stdlib_memory_minimum, MAX_MEMORY_PAGES, MEMORY_PAGE_SIZE};
use crate::module::{
    exported_func, initializer_failed, initializers_ran, initializers_run_on, initializers_start,
    initializes, is_module_initializer, listed,
};
use crate::runtime::{
    blank_pages, call_function, call_leads_to, compilation_refused, compile_module, contents,
    empty_entries, error_message, error_text, get_export, grow_memory, grow_table,
    growth_is_transitive, instantiate_module, instantiation_leads_to, memory_data,
    memory_growth_refused, memory_refused, module_engine, module_exports, module_imports,
    module_source, new_global, new_memory, new_store, new_table, overwritten, set_table, store_data_mut,
    table_growth_refused, table_refused, wasm_exports, wasm_imports, write_memory, Export,
    GlobalKind, Import, StoreContents,
};
use crate::stdlib::{stdlib_symbols, symbols_from};
use crate::text::{join2, join3, position, same_text, texts};

verus! {

/// Whether `imports` are what `inner` provides for everything that is wanted.
pub open spec fn all_provided(
    inner: StoreInner,
    store: StoreContents,
    wanted: Seq<(Seq<char>, Option<u64>)>,
    imports: Seq<Import>,
) -> bool {
    &&& imports.len() == wanted.len()
    &&& forall|i: int|
        0 <= i < imports.len() ==> store.owns(#[trigger] imports[i]) && provides(
            inner,
            store,
            wanted[i].0,
            imports[i],
        )
}

/// Collects what the stdlib imports, which is all provided by the store.
pub fn collect_stdlib_imports(inner: &mut StoreInner, module: &wasmtime::Module) -> (imports:
    WasmResult<Vec<Import>>)
    requires
        old(inner).linked(),
    ensures
        *final(inner) == (StoreInner { store: final(inner).store, ..*old(inner) }),
        final(inner).linked(),
        adds_globals(old(inner).held(), final(inner).held()),
        match imports {
            Ok(imports) => all_provided(
                *old(inner),
                final(inner).held(),
                wasm_imports(module_source(*module)),
                imports@,
            ),
            Err((kind, message)) => unexpected_import(
                wasm_imports(module_source(*module)),
                kind,
                message@,
            ),
        },
{
    let wanted = module_imports(module);
    let ghost names = wasm_imports(module_source(*module));
    let mut imports: Vec<Import> = Vec::new();
    let mut i: usize = 0;
    while i < wanted.len()
        invariant
            i <= wanted@.len(),
            imports@.len() == i,
            names == wasm_imports(module_source(*module)),
            wanted@.len() == names.len(),
            forall|k: int| 0 <= k < names.len() ==> (#[trigger] wanted@[k]).0@ == names[k].0,
            *inner == (StoreInner { store: inner.store, ..*old(inner) }),
            inner.linked(),
            adds_globals(old(inner).held(), inner.held()),
            forall|k: int|
                0 <= k < i ==> inner.held().owns(#[trigger] imports@[k]) && provides(
                    *old(inner),
                    inner.held(),
                    names[k].0,
                    imports@[k],
                ),
            forall|k: int|
                0 <= k < i ==> is_builtin((#[trigger] names[k]).0),
        decreases wanted@.len() - i,
    {
        let ghost before = inner.held();
        let name = wanted[i].0.as_str();
        let provided = provide_builtin_import(inner, name);
        proof {
            growth_is_transitive(old(inner).held(), before, inner.held());
        }
        match provided {
            Some(import) => {
                imports.push(import);
            },
            None => {
                return Err(
                    (INSTANTIATE, join3("unexpected import in Wasm stdlib: ", name, "\n")),
                );
            },
        }
        i += 1;
    }
    Ok(imports)
}

/// Whether a failure names the first import that the store does not provide.
pub open spec fn unexpected_import(
    wanted: Seq<(Seq<char>, Option<u64>)>,
    kind: u32,
    message: Seq<char>,
) -> bool {
    exists|i: int|
        {
            &&& 0 <= i < wanted.len()
            &&& !is_builtin((#[trigger] wanted[i]).0)
            &&& forall|k: int| 0 <= k < i ==> is_builtin((#[trigger] wanted[k]).0)
            &&& kind == INSTANTIATE
            &&& message == "unexpected import in Wasm stdlib: "@ + wanted[i].0 + "\n"@
        }
}

/// The stack pointer that is exported, if it is listed.
pub open spec fn exported_stack_pointer(
    exports: Map<Seq<char>, Export>,
    names: Seq<Seq<char>>,
    count: int,
) -> Option<wasmtime::Global> {
    let name = "__stack_pointer"@;
    if listed(names, count, name) && exports.contains_key(name) {
        match exports[name] {
            Export::Global(global) => Some(global),
            _ => None,
        }
    } else {
        None
    }
}

/// The function of one symbol: what is exported under its name, where that is
/// no function for another purpose and the symbol is not listed twice.
pub open spec fn symbol_func(
    exports: Map<Seq<char>, Export>,
    names: Seq<Seq<char>>,
    count: int,
    symbols: Seq<Seq<char>>,
    index: int,
) -> Option<wasmtime::Func> {
    let symbol = symbols[index];
    if initializes(symbol) || symbol == "reset_heap"@ || (exists|i: int|
        0 <= i < index && #[trigger] symbols[i] == symbol) {
        None
    } else {
        exported_func(exports, names, count, symbol)
    }
}

/// Whether the store has what the first `count` exports of the stdlib give it.
pub open spec fn registered(
    before: StoreInner,
    exports: Map<Seq<char>, Export>,
    names: Seq<Seq<char>>,
    count: int,
    after: StoreInner,
) -> bool {
    &&& after.stack_pointer_global == match exported_stack_pointer(exports, names, count) {
        Some(global) => global,
        None => before.stack_pointer_global,
    }
    &&& after.builtin_fns.reset_heap == exported_func(exports, names, count, "reset_heap"@)
    &&& after.stdlib_fns@.len() == before.stdlib_symbols@.len()
    &&& forall|i: int|
        0 <= i < after.stdlib_fns@.len() ==> #[trigger] after.stdlib_fns@[i] == symbol_func(
            exports,
            names,
            count,
            texts(before.stdlib_symbols@),
            i,
        )
}

/// Whether only what comes from the stdlib, and what the runtime's store holds,
/// differs.
pub open spec fn only_registered(before: StoreInner, after: StoreInner) -> bool {
    after == (StoreInner {
        store: after.store,
        stack_pointer_global: after.stack_pointer_global,
        builtin_fns: BuiltinFunctions {
            reset_heap: after.builtin_fns.reset_heap,
            ..before.builtin_fns
        },
        stdlib_fns: after.stdlib_fns,
        ..before
    })
}

/// The entry point for resetting the heap is no initializer.
proof fn reset_heap_is_no_initializer()
    ensures
        !initializes("reset_heap"@),
{
    reveal_strlit("reset_heap");
    reveal_strlit("_initialize");
    reveal_strlit("__wasm_apply_data_relocs");
    reveal_strlit("__wasm_call_ctors");
    assert("reset_heap"@.len() == 10);
    assert("_initialize"@.len() == 11);
    assert("__wasm_apply_data_relocs"@.len() == 24);
    assert("__wasm_call_ctors"@.len() == 17);
}

/// Registers the exports of the stdlib: the stack pointer, the `reset_heap`
/// entry point, and every symbol on the list. Calls the initializers among
/// them.
pub fn register_exports(
    inner: &mut StoreInner,
    instance: wasmtime::Instance,
    module: &wasmtime::Module,
) -> (result: WasmResult<()>)
    requires
        old(inner).linked(),
        old(inner).held().instances.contains_key(instance),
        old(inner).builtin_fns.reset_heap is None,
        forall|i: int|
            0 <= i < old(inner).stdlib_fns@.len() ==> (#[trigger] old(inner).stdlib_fns@[i])
                is None,
    ensures
        final(inner).linked(),
        only_registered(*old(inner), *final(inner)),
        old(inner).held().grows_to(final(inner).held()),
        state_kept(old(inner).held().state, final(inner).held().state),
        match result {
            Ok(_) => {
                let names = wasm_exports(module_source(*module));
                let exports = old(inner).held().instances[instance];
                &&& registered(*old(inner), exports, names, names.len() as int, *final(inner))
                &&& initializers_ran(
                    exports,
                    names,
                    names.len(),
                    old(inner).held(),
                    final(inner).held(),
                )
            },
            Err((kind, message)) => kind == INSTANTIATE && exists|text: Seq<char>|
                #[trigger] initializer_failed(
                    old(inner).held().instances[instance],
                    wasm_exports(module_source(*module)),
                    old(inner).held(),
                    final(inner).held(),
                    text,
                ) && message@ == "trap when calling stdlib relocation function: "@ + text
                    + "\n"@,
        },
{
    let names = module_exports(module);
    let ghost exports = inner.held().instances[instance];
    let ghost listing = wasm_exports(module_source(*module));
    let ghost symbols = texts(inner.stdlib_symbols@);
    proof {
        initializers_start(exports, listing, inner.held());
    }
    let mut i: usize = 0;
    while i < names.len()
        invariant
            i <= names@.len(),
            names@.len() == listing.len(),
            forall|k: int| 0 <= k < names@.len() ==> (#[trigger] names@[k])@ == listing[k],
            symbols == texts(old(inner).stdlib_symbols@),
            inner.linked(),
            only_registered(*old(inner), *inner),
            old(inner).held().instances.contains_key(instance),
            old(inner).held().grows_to(inner.held()),
            state_kept(old(inner).held().state, inner.held().state),
            exports == old(inner).held().instances[instance],
            registered(*old(inner), exports, listing, i as int, *inner),
            listing == wasm_exports(module_source(*module)),
            initializers_ran(exports, listing, i as nat, old(inner).held(), inner.held()),
        decreases names@.len() - i,
    {
        let name = names[i].as_str();
        let ghost before = *inner;
        match get_export(&mut inner.store, instance, name) {
            Some(Export::Global(global)) => {
                if same_text(name, "__stack_pointer") {
                    inner.stack_pointer_global = global;
                }
            },
            Some(Export::Func(func)) => {
                if is_module_initializer(name) {
                    let args: [i32; 0] = [];
                    assert(args@ =~= seq![]);
                    match call_function(&mut inner.store, func, &args, 0) {
                        Ok(values) => {
                            assert(values@ =~= seq![]);
                            assert(call_leads_to(
                                before.held(),
                                func,
                                seq![],
                                0,
                                Ok(seq![]),
                                inner.held(),
                            ));
                        },
                        Err(error) => {
                            proof {
                                growth_is_transitive(
                                    old(inner).held(),
                                    before.held(),
                                    inner.held(),
                                );
                                assert(initializer_failed(
                                    exports,
                                    listing,
                                    old(inner).held(),
                                    inner.held(),
                                    error_message(error),
                                ));
                            }
                            return Err(
                                (
                                    INSTANTIATE,
                                    join3(
                                        "trap when calling stdlib relocation function: ",
                                        error_text(&error).as_str(),
                                        "\n",
                                    ),
                                ),
                            );
                        },
                    }
                } else if same_text(name, "reset_heap") {
                    inner.builtin_fns.reset_heap = Some(func);
                } else {
                    match position(inner.stdlib_symbols.as_slice(), name) {
                        Some(index) => {
                            inner.stdlib_fns.set(index, Some(func));
                        },
                        None => {},
                    }
                }
            },
            _ => {},
        }
        proof {
            growth_is_transitive(old(inner).held(), before.held(), inner.held());
            initializers_run_on(
                exports,
                listing,
                i as nat,
                old(inner).held(),
                before.held(),
                inner.held(),
            );
            reset_heap_is_no_initializer();
            assert forall|k: int| 0 <= k < inner.stdlib_fns@.len() implies #[trigger]
                inner.stdlib_fns@[k] == symbol_func(exports, listing, i + 1, symbols, k) by {
                assert(before.stdlib_fns@[k] == symbol_func(
                    exports,
                    listing,
                    i as int,
                    symbols,
                    k,
                ));
                assert(listed(listing, i + 1, symbols[k]) <==> listed(
                    listing,
                    i as int,
                    symbols[k],
                ) || symbols[k] == listing[i as int]);
            }
            assert(listed(listing, i + 1, "reset_heap"@) <==> listed(
                listing,
                i as int,
                "reset_heap"@,
            ) || "reset_heap"@ == listing[i as int]);
            assert(listed(listing, i + 1, "__stack_pointer"@) <==> listed(
                listing,
                i as int,
                "__stack_pointer"@,
            ) || "__stack_pointer"@ == listing[i as int]);
        }
        i += 1;
    }
    Ok(())
}

/// Whether a failure says what the stdlib first lacks.
pub open spec fn stdlib_lacks(inner: StoreInner, kind: u32, message: Seq<char>) -> bool {
    &&& kind == INSTANTIATE
    &&& if inner.builtin_fns.reset_heap is None {
        message == "missing malloc reset function in Wasm stdlib"@
    } else {
        exists|i: int|
            {
                &&& 0 <= i < inner.stdlib_fns@.len()
                &&& (#[trigger] inner.stdlib_fns@[i]) is None
                &&& forall|k: int| 0 <= k < i ==> (#[trigger] inner.stdlib_fns@[k]) is Some
                &&& message == "missing exported symbol in Wasm stdlib: "@
                    + inner.stdlib_symbols@[i]@
            }
    }
}

/// Checks that the stdlib gave everything that is asked of it.
pub fn check_stdlib(inner: &StoreInner) -> (result: WasmResult<()>)
    requires
        inner.linked(),
    ensures
        match result {
            Ok(_) => inner.complete(),
            Err((kind, message)) => stdlib_lacks(*inner, kind, message@),
        },
{
    if inner.builtin_fns.reset_heap.is_none() {
        return Err((INSTANTIATE, "missing malloc reset function in Wasm stdlib".to_owned()));
    }
    let mut i: usize = 0;
    while i < inner.stdlib_fns.len()
        invariant
            i <= inner.stdlib_fns@.len(),
            inner.stdlib_fns@.len() == inner.stdlib_symbols@.len(),
            inner.builtin_fns.reset_heap is Some,
            forall|k: int| 0 <= k < i ==> (#[trigger] inner.stdlib_fns@[k]) is Some,
        decreases inner.stdlib_fns@.len() - i,
    {
        if inner.stdlib_fns[i].is_none() {
            return Err(
                (
                    INSTANTIATE,
                    join2(
                        "missing exported symbol in Wasm stdlib: ",
                        inner.stdlib_symbols[i].as_str(),
                    ),
                ),
            );
        }
        i += 1;
    }
    Ok(())
}

/// The lexer object of a store whose lexer functions stand in the table from
/// `base` on.
pub open spec fn blank_lexer(base: int) -> LexerInWasmMemory {
    LexerInWasmMemory {
        lookahead: 0,
        result_symbol: 0,
        advance: base as i32,
        mark_end: (base + 1) as i32,
        get_column: (base + 2) as i32,
        is_at_included_range_start: (base + 3) as i32,
        eof: (base + 4) as i32,
    }
}

/// Whether the lexer functions stand at the end of the table, where the entries
/// of modules go on, and the lexer object that refers to them stands in memory
/// right behind the first `pages` pages, right before the data of modules.
pub open spec fn lexer_placed(inner: StoreInner, funcs: Seq<wasmtime::Func>, pages: int) -> bool {
    let base = inner.current_function_table_offset - 5;
    &&& inner.lexer_address == pages * MEMORY_PAGE_SIZE
    &&& inner.current_memory_offset == inner.lexer_address + LEXER_SIZE
    &&& inner.bytes().subrange(inner.lexer_address as int, inner.current_memory_offset as int)
        == blank_lexer(base).image()
    &&& 0 <= base
    &&& inner.entries().len() == inner.current_function_table_offset
    &&& forall|i: int| 0 <= i < 5 ==> inner.entries()[base + i] == Some(#[trigger] funcs[i])
}

/// Whether the lexer functions were added to the table behind the entries that
/// it had, and the lexer object was written into memory, which may have grown by
/// one page and else is as it was.
pub open spec fn lexer_added(
    before: StoreInner,
    funcs: Seq<wasmtime::Func>,
    pages: int,
    after: StoreInner,
) -> bool {
    &&& after == (StoreInner {
        store: after.store,
        lexer_address: after.lexer_address,
        current_memory_offset: after.current_memory_offset,
        current_function_table_offset: after.current_function_table_offset,
        ..before
    })
    &&& after.held() == (StoreContents {
        state: State { lexer_address: after.lexer_address, ..before.held().state },
        memories: before.held().memories.insert(before.memory, after.bytes()),
        tables: before.held().tables.insert(before.table, after.entries()),
        ..before.held()
    })
    &&& after.entries().take(before.entries().len() as int) == before.entries()
    &&& after.entries().len() == before.entries().len() + 5
    &&& exists|room: Seq<u8>|
        (room == before.bytes() || room == before.bytes() + blank_pages(1))
            && after.current_memory_offset <= room.len() && after.bytes()
            == #[trigger] overwritten(
            room,
            after.lexer_address as int,
            blank_lexer(before.entries().len() as int).image(),
        )
    &&& lexer_placed(after, funcs, pages)
}

/// Whether there is no room for the lexer: the function table or the memory
/// cannot grow by what it needs.
pub open spec fn no_room(before: StoreInner, kind: u32, message: Seq<char>) -> bool {
    &&& kind == ALLOCATE
    &&& {
        ||| exists|text: Seq<char>|
            #[trigger] table_growth_refused(before.held(), before.table, 5, text) && message
                == "failed to grow Wasm table to initial size: "@ + text
        ||| before.entries().len() + 5 > u32::MAX && message
            == "failed to grow Wasm table to initial size: "@ + "too many entries"@
        ||| exists|ready: StoreContents|
            #[trigger] memory_growth_refused(ready, before.memory, 1) && ready == (StoreContents {
                state: ready.state,
                tables: ready.tables,
                ..before.held()
            }) && message == "failed to allocate Wasm memory: "@ + "no room for the lexer"@
    }
}

/// Adds the lexer functions to the shared function table, and writes the lexer
/// object with their indices into memory, which it grows by what that needs.
pub fn place_lexer(inner: &mut StoreInner, funcs: &[wasmtime::Func; 5], pages: u32) -> (result:
    WasmResult<()>)
    requires
        old(inner).linked(),
        old(inner).complete(),
        one_record_each(old(inner).instances@),
        old(inner).current_instance is Some ==> old(inner).is_active(),
        forall|i: int| 0 <= i < 5 ==> old(inner).held().funcs.contains_key(#[trigger] funcs@[i]),
        pages <= MAX_MEMORY_PAGES,
        pages * MEMORY_PAGE_SIZE <= old(inner).bytes().len(),
    ensures
        *final(inner) == (StoreInner {
            store: final(inner).store,
            lexer_address: final(inner).lexer_address,
            current_memory_offset: final(inner).current_memory_offset,
            current_function_table_offset: final(inner).current_function_table_offset,
            ..*old(inner)
        }),
        old(inner).held().grows_to(final(inner).held()),
        final(inner).held().state == (State {
            lexer_address: final(inner).held().state.lexer_address,
            ..old(inner).held().state
        }),
        match result {
            Ok(_) => final(inner).wf() && lexer_added(
                *old(inner),
                funcs@,
                pages as int,
                *final(inner),
            ),
            Err((kind, message)) => no_room(*old(inner), kind, message@),
        },
{
    let grown = grow_table(&mut inner.store, inner.table, 5);
    let base = match grown {
        Ok(base) => base,
        Err(error) => {
            let text = error_text(&error);
            assert(table_growth_refused(old(inner).held(), old(inner).table, 5, text@));
            return Err(
                (
                    ALLOCATE,
                    join2("failed to grow Wasm table to initial size: ", text.as_str()),
                ),
            );
        },
    };
    if base > (u32::MAX - 5) as u64 {
        return Err(
            (
                ALLOCATE,
                join2("failed to grow Wasm table to initial size: ", "too many entries"),
            ),
        );
    }
    let mut i: usize = 0;
    while i < 5
        invariant
            i <= 5,
            base <= u32::MAX - 5,
            *inner == (StoreInner { store: inner.store, ..*old(inner) }),
            old(inner).held().grows_to(inner.held()),
            inner.linked(),
            base == old(inner).entries().len(),
            base + 5 == inner.entries().len(),
            inner.held() == old(inner).held().with_table(inner.table, inner.entries()),
            forall|k: int|
                0 <= k < base ==> #[trigger] inner.entries()[k] == old(inner).entries()[k],
            forall|k: int| 0 <= k < 5 ==> inner.held().funcs.contains_key(#[trigger] funcs@[k]),
            forall|k: int| 0 <= k < i ==> inner.entries()[base + k] == Some(#[trigger] funcs@[k]),
        decreases 5 - i,
    {
        set_table(&mut inner.store, inner.table, base + i as u64, funcs[i]);
        assert(inner.held().tables =~= old(inner).held().tables.insert(
            inner.table,
            inner.entries(),
        ));
        i += 1;
    }
    let lexer = LexerInWasmMemory {
        lookahead: 0,
        result_symbol: 0,
        advance: base as i32,
        mark_end: (base + 1) as i32,
        get_column: (base + 2) as i32,
        is_at_included_range_start: (base + 3) as i32,
        eof: (base + 4) as i32,
    };
    inner.current_function_table_offset = (base + 5) as u32;
    inner.lexer_address = pages * MEMORY_PAGE_SIZE;
    inner.current_memory_offset = inner.lexer_address + LEXER_SIZE as u32;
    store_data_mut(&mut inner.store).lexer_address = inner.lexer_address;

    // What matters is not whether the memory grew, but whether there is room.
    let ghost ready = inner.held();
    let pages_needed = (inner.current_memory_offset - inner.lexer_address - 1) / MEMORY_PAGE_SIZE
        + 1;
    let _ = grow_memory(&mut inner.store, inner.memory, pages_needed as u64);
    if memory_data(&inner.store, inner.memory).len() < inner.heap_address() as usize {
        return Err(
            (ALLOCATE, join2("failed to allocate Wasm memory: ", "no room for the lexer")),
        );
    }
    let bytes = lexer.to_bytes();
    let ghost room = inner.bytes();
    write_memory(&mut inner.store, inner.memory, inner.lexer_address as usize, bytes.as_slice());
    proof {
        assert(inner.bytes().subrange(
            inner.lexer_address as int,
            inner.current_memory_offset as int,
        ) =~= bytes@);
        assert(inner.held().memories =~= old(inner).held().memories.insert(
            inner.memory,
            inner.bytes(),
        ));
        assert(inner.entries().take(base as int) =~= old(inner).entries());
        assert(inner.bytes() == overwritten(room, inner.lexer_address as int, bytes@));
        assert(lexer_placed(*inner, funcs@, pages as int));
    }
    Ok(())
}

/// Whether everything that the stdlib gives was taken from `exports`, which
/// are named by `names`. Without a stack pointer among them, there is a mutable
/// one of the store.
pub open spec fn stdlib_linked(
    inner: StoreInner,
    exports: Map<Seq<char>, Export>,
    names: Seq<Seq<char>>,
) -> bool {
    let count = names.len() as int;
    &&& match exported_stack_pointer(exports, names, count) {
        Some(global) => inner.stack_pointer_global == global,
        None => inner.held().globals[inner.stack_pointer_global] == GlobalKind::Other,
    }
    &&& inner.builtin_fns.reset_heap == exported_func(exports, names, count, "reset_heap"@)
    &&& inner.stdlib_fns@.len() == inner.stdlib_symbols@.len()
    &&& forall|i: int|
        0 <= i < inner.stdlib_fns@.len() ==> #[trigger] inner.stdlib_fns@[i] == symbol_func(
            exports,
            names,
            count,
            texts(inner.stdlib_symbols@),
            i,
        )
}

/// Whether a store has its memory, of `pages` blank pages, its table and its
/// stack pointer, and nothing of the stdlib yet. Both placement offsets are at
/// zero.
pub open spec fn store_begun(inner: StoreInner, pages: int) -> bool {
    &&& inner.linked()
    &&& inner.bytes() == blank_pages(pages)
    &&& inner.entries() == empty_entries(1)
    &&& inner.held().globals[inner.stack_pointer_global] == GlobalKind::Other
    &&& inner.held().state.current_lexer is None
    &&& inner.held().state.debug_messages@.len() == 0
    &&& inner.builtin_fns.reset_heap is None
    &&& forall|i: int|
        0 <= i < inner.stdlib_fns@.len() ==> (#[trigger] inner.stdlib_fns@[i]) is None
    &&& inner.lexer_address == 0
    &&& inner.current_memory_offset == 0
    &&& inner.current_function_table_offset == 0
    &&& inner.instances@.len() == 0
    &&& inner.current_instance is None
    &&& !inner.has_error
}

/// Whether instantiating the stdlib in `start`, which provided what it imports,
/// came to `outcome`: the instance, or the text of an error.
pub open spec fn stdlib_instantiated(
    start: StoreInner,
    stdlib_wasm: Seq<u8>,
    outcome: Result<wasmtime::Instance, Seq<char>>,
    after: StoreContents,
) -> bool {
    exists|module: wasmtime::Module, imports: Seq<Import>, ready: StoreContents|
        {
            &&& adds_globals(start.held(), ready)
            &&& #[trigger] all_provided(start, ready, wasm_imports(stdlib_wasm), imports)
            &&& module_source(module) == stdlib_wasm
            &&& #[trigger] instantiation_leads_to(ready, module, imports, outcome, after)
        }
}

/// Whether `instance` is one of the stdlib, which was instantiated in `start`,
/// whose initializers have run, and whose exports `after` has taken.
pub open spec fn stdlib_started(
    start: StoreInner,
    stdlib_wasm: Seq<u8>,
    instance: wasmtime::Instance,
    after: StoreInner,
) -> bool {
    let names = wasm_exports(stdlib_wasm);
    &&& exists|instantiated: StoreContents|
        #[trigger] stdlib_instantiated(start, stdlib_wasm, Ok(instance), instantiated)
            && initializers_ran(
            instantiated.instances[instance],
            names,
            names.len(),
            instantiated,
            after.held(),
        )
    &&& after.held().instances.contains_key(instance)
    &&& state_kept(start.held().state, after.held().state)
    &&& only_registered(start, after)
    &&& stdlib_linked(after, after.held().instances[instance], names)
}

/// Whether the stdlib was started in `start`, which provides all that it
/// imports, and the lexer was added.
pub open spec fn stdlib_set_up(
    start: StoreInner,
    stdlib_wasm: Seq<u8>,
    pages: int,
    after: StoreInner,
) -> bool {
    let wanted = wasm_imports(stdlib_wasm);
    &&& forall|i: int| 0 <= i < wanted.len() ==> is_builtin((#[trigger] wanted[i]).0)
    &&& exists|
        instance: wasmtime::Instance,
        registered: StoreInner,
        funcs: Seq<wasmtime::Func>,
    |
        {
            &&& #[trigger] stdlib_started(start, stdlib_wasm, instance, registered)
            &&& are_lexer_functions(after.held(), funcs)
            &&& #[trigger] lexer_added(registered, funcs, pages, after)
            &&& after.held().instances.contains_key(instance)
            &&& stdlib_linked(
                after,
                after.held().instances[instance],
                wasm_exports(stdlib_wasm),
            )
        }
}

/// Whether `inner` is a new store with the given stdlib and the given list of
/// symbols: one that was begun, and in which the stdlib was set up.
pub open spec fn store_made(inner: StoreInner, stdlib_wasm: Seq<u8>, imports: Seq<char>) -> bool {
    &&& inner.wf()
    &&& inner.held().state.current_lexer is None
    &&& texts(inner.stdlib_symbols@) == symbols_from(imports, 0)
    &&& inner.instances@.len() == 0
    &&& inner.current_instance is None
    &&& !inner.has_error
    &&& memory_minimum(wasm_imports(stdlib_wasm)) matches Some(pages) && pages <= MAX_MEMORY_PAGES
        && exists|start: StoreInner|
        store_begun(start, pages as int) && #[trigger] stdlib_set_up(
            start,
            stdlib_wasm,
            pages as int,
            inner,
        )
}

/// Whether a memory of the given number of pages cannot be had: there are too
/// many, or the runtime refuses it.
pub open spec fn memory_not_made(pages: u64, kind: u32, message: Seq<char>) -> bool {
    &&& kind == ALLOCATE
    &&& {
        ||| pages > MAX_MEMORY_PAGES && message == "failed to allocate Wasm memory: "@
            + "minimum exceeds the maximum"@
        ||| exists|store: StoreContents, text: Seq<char>|
            #[trigger] memory_refused(store, pages as u32, MAX_MEMORY_PAGES, text)
                && store.state.memory is None && message == "failed to allocate Wasm memory: "@
                + text
    }
}

/// Whether the runtime can refuse a store its table.
pub open spec fn table_not_made(kind: u32, message: Seq<char>) -> bool {
    kind == ALLOCATE && exists|store: StoreContents, text: Seq<char>|
        #[trigger] table_refused(store, 1, u32::MAX, text) && store.state.table is None && message
            == "failed to allocate Wasm table: "@ + text
}

/// Whether the stdlib was started, and either lacks something, or leaves no room
/// for the lexer.
pub open spec fn stdlib_unfit(
    start: StoreInner,
    stdlib_wasm: Seq<u8>,
    kind: u32,
    message: Seq<char>,
    after: StoreContents,
) -> bool {
    exists|instance: wasmtime::Instance, registered: StoreInner|
        {
            &&& #[trigger] stdlib_started(start, stdlib_wasm, instance, registered)
            &&& after.state.debug_messages == registered.held().state.debug_messages
            &&& {
                ||| stdlib_lacks(registered, kind, message)
                ||| registered.complete() && no_room(registered, kind, message)
            }
        }
}

/// Whether one of the initializers of the stdlib, which was instantiated in
/// `start`, failed with an error of the given text.
pub open spec fn stdlib_not_initialized(
    start: StoreInner,
    stdlib_wasm: Seq<u8>,
    text: Seq<char>,
    after: StoreContents,
) -> bool {
    exists|instance: wasmtime::Instance, instantiated: StoreContents|
        #[trigger] stdlib_instantiated(start, stdlib_wasm, Ok(instance), instantiated)
            && initializer_failed(
            instantiated.instances[instance],
            wasm_exports(stdlib_wasm),
            instantiated,
            after,
            text,
        )
}

/// Whether setting up the stdlib in `start` can fail like this: for what it
/// imports, for what the runtime refuses, or for what it lacks.
pub open spec fn stdlib_refused(
    start: StoreInner,
    stdlib_wasm: Seq<u8>,
    kind: u32,
    message: Seq<char>,
    after: StoreContents,
) -> bool {
    ||| adds_globals(start.held(), after) && unexpected_import(
        wasm_imports(stdlib_wasm),
        kind,
        message,
    )
    ||| kind == INSTANTIATE && exists|text: Seq<char>|
        #[trigger] stdlib_instantiated(start, stdlib_wasm, Err(text), after) && message
            == "failed to instantiate Wasm stdlib module: "@ + text
    ||| kind == INSTANTIATE && exists|text: Seq<char>|
        #[trigger] stdlib_not_initialized(start, stdlib_wasm, text, after) && message
            == "trap when calling stdlib relocation function: "@ + text + "\n"@
    ||| stdlib_unfit(start, stdlib_wasm, kind, message, after)
}

/// Why a store was not made, and what the stdlib asked to have printed until
/// then, oldest first.
#[derive(Debug)]
pub struct StoreFailure {
    pub kind: WasmErrorKind,
    pub message: String,
    pub debug_messages: Vec<String>,
}

/// A failure before any code of the stdlib has run.
fn early_failure(kind: WasmErrorKind, message: String) -> (failure: StoreFailure)
    ensures
        failure.kind == kind,
        failure.message == message,
        failure.debug_messages@.len() == 0,
{
    StoreFailure { kind, message, debug_messages: Vec::new() }
}

/// Whether a store with the given stdlib can be refused like this before any code
/// of the stdlib has run: the stdlib cannot be compiled or wants no memory, or the
/// memory or the table cannot be had.
pub open spec fn store_not_begun(stdlib_wasm: Seq<u8>, kind: u32, message: Seq<char>) -> bool {
    ||| kind == COMPILE && exists|text: Seq<char>|
        #[trigger] compilation_refused(stdlib_wasm, text) && message
            == "failed to compile Wasm stdlib: "@ + text
    ||| match memory_minimum(wasm_imports(stdlib_wasm)) {
        Some(pages) => memory_not_made(pages, kind, message) || table_not_made(kind, message),
        None => kind == COMPILE && message == "Wasm stdlib is missing the 'memory' import"@,
    }
}

/// Whether a store with the given stdlib and the given list of symbols can be
/// refused with this failure: it cannot be begun, or the stdlib cannot be set up
/// in it.
pub open spec fn store_refused(
    stdlib_wasm: Seq<u8>,
    imports: Seq<char>,
    failure: StoreFailure,
) -> bool {
    ||| store_not_begun(stdlib_wasm, failure.kind, failure.message@)
        && failure.debug_messages@.len() == 0
    ||| memory_minimum(wasm_imports(stdlib_wasm)) matches Some(pages) && exists|
        start: StoreInner,
        after: StoreContents,
    |
        {
            &&& store_begun(start, pages as int)
            &&& texts(start.stdlib_symbols@) == symbols_from(imports, 0)
            &&& #[trigger] stdlib_refused(
                start,
                stdlib_wasm,
                failure.kind,
                failure.message@,
                after,
            )
            &&& failure.debug_messages == after.state.debug_messages
        }
}

/// `count` functions that are not known yet.
fn unresolved(count: usize) -> (funcs: Vec<Option<wasmtime::Func>>)
    ensures
        funcs@.len() == count,
        forall|i: int| 0 <= i < count ==> (#[trigger] funcs@[i]) is None,
{
    let mut funcs: Vec<Option<wasmtime::Func>> = Vec::new();
    while funcs.len() < count
        invariant
            funcs@.len() <= count,
            forall|i: int| 0 <= i < funcs@.len() ==> (#[trigger] funcs@[i]) is None,
        decreases count - funcs@.len(),
    {
        funcs.push(None);
    }
    funcs
}

/// Instantiates the stdlib in a store that was begun, takes what it exports, and
/// adds the lexer.
pub fn set_up_stdlib(
    inner: &mut StoreInner,
    module: &wasmtime::Module,
    lexer_fns: &[wasmtime::Func; 5],
    pages: u32,
) -> (result: WasmResult<()>)
    requires
        store_begun(*old(inner), pages as int),
        pages <= MAX_MEMORY_PAGES,
        module_engine(*module) == old(inner).engine,
        are_lexer_functions(old(inner).held(), lexer_fns@),
    ensures
        match result {
            Ok(_) => final(inner).wf() && stdlib_set_up(
                *old(inner),
                module_source(*module),
                pages as int,
                *final(inner),
            ),
            Err((kind, message)) => stdlib_refused(
                *old(inner),
                module_source(*module),
                kind,
                message@,
                final(inner).held(),
            ),
        },
{
    let ghost start = *inner;
    let ghost stdlib_wasm = module_source(*module);
    let ghost names = wasm_exports(stdlib_wasm);
    let provided = match collect_stdlib_imports(inner, module) {
        Ok(provided) => provided,
        Err(failure) => {
            return Err(failure);
        },
    };
    let ghost ready = *inner;
    let instance = match instantiate_module(&mut inner.store, module, provided.as_slice()) {
        Ok(instance) => instance,
        Err(error) => {
            let text = error_text(&error);
            assert(stdlib_instantiated(start, stdlib_wasm, Err(text@), inner.held()));
            return Err(
                (
                    INSTANTIATE,
                    join2("failed to instantiate Wasm stdlib module: ", text.as_str()),
                ),
            );
        },
    };
    let ghost instantiated = *inner;
    assert(instantiated.linked());
    assert(stdlib_instantiated(start, stdlib_wasm, Ok(instance), instantiated.held()));
    match register_exports(inner, instance, module) {
        Ok(_) => {},
        Err(failure) => {
            proof {
                let text = choose|text: Seq<char>|
                    #[trigger] initializer_failed(
                        instantiated.held().instances[instance],
                        names,
                        instantiated.held(),
                        inner.held(),
                        text,
                    ) && failure.1@ == "trap when calling stdlib relocation function: "@ + text
                        + "\n"@;
                assert(stdlib_not_initialized(start, stdlib_wasm, text, inner.held()));
            }
            return Err(failure);
        },
    }
    let ghost registered = *inner;
    proof {
        growth_is_transitive(start.held(), ready.held(), instantiated.held());
        growth_is_transitive(start.held(), instantiated.held(), registered.held());
        assert(instantiated.held().instances.contains_key(instance));
        assert(start.held().globals.contains_key(start.stack_pointer_global));
        assert(stdlib_linked(registered, registered.held().instances[instance], names));
        assert(stdlib_started(start, stdlib_wasm, instance, registered));
    }
    match check_stdlib(inner) {
        Ok(_) => {},
        Err(failure) => {
            assert(stdlib_unfit(start, stdlib_wasm, failure.0, failure.1@, inner.held()));
            return Err(failure);
        },
    }
    assert(start.held().memories.contains_key(start.memory));
    match place_lexer(inner, lexer_fns, pages) {
        Ok(_) => {},
        Err(failure) => {
            assert(stdlib_unfit(start, stdlib_wasm, failure.0, failure.1@, inner.held()));
            return Err(failure);
        },
    }
    proof {
        growth_is_transitive(start.held(), registered.held(), inner.held());
        assert(are_lexer_functions(inner.held(), lexer_fns@));
        assert(lexer_added(registered, lexer_fns@, pages as int, *inner));
        assert(inner.held().instances.contains_key(instance));
        assert(stdlib_linked(*inner, inner.held().instances[instance], names));
        assert forall|i: int| 0 <= i < wasm_imports(stdlib_wasm).len() implies is_builtin(
            (#[trigger] wasm_imports(stdlib_wasm)[i]).0,
        ) by {
            assert(ready.held().owns(provided@[i]));
        }
    }
    Ok(())
}

/// Compiles the stdlib, creates the memory, the table and the globals of a
/// store, and sets up the stdlib in it. On success the store is ready to load
/// grammar modules.
pub fn store_new(engine: wasmtime::Engine, stdlib_wasm: &[u8], imports: &str) -> (result: Result<
    StoreInner,
    StoreFailure,
>)
    ensures
        match result {
            Ok(inner) => store_made(inner, stdlib_wasm@, imports@) && inner.engine == engine,
            Err(failure) => store_refused(stdlib_wasm@, imports@, failure),
        },
{
    let mut store = new_store(&engine, State::empty());
    let lexer_fns = create_lexer_functions(&mut store);
    let builtin_fns = create_builtin_functions(&mut store);
    let ghost functions = contents(store);

    let module = match compile_module(&engine, stdlib_wasm) {
        Ok(module) => module,
        Err(error) => {
            let text = error_text(&error);
            let message = join2("failed to compile Wasm stdlib: ", text.as_str());
            return Err(early_failure(COMPILE, message));
        },
    };
    let pages = match stdlib_memory_minimum(&module) {
        Some(pages) => pages,
        None => {
            let message = "Wasm stdlib is missing the 'memory' import".to_owned();
            return Err(early_failure(COMPILE, message));
        },
    };
    if pages > MAX_MEMORY_PAGES as u64 {
        let message = join2("failed to allocate Wasm memory: ", "minimum exceeds the maximum");
        return Err(early_failure(ALLOCATE, message));
    }
    let pages = pages as u32;
    let memory = match new_memory(&mut store, pages, MAX_MEMORY_PAGES) {
        Ok(memory) => memory,
        Err(error) => {
            let text = error_text(&error);
            let message = join2("failed to allocate Wasm memory: ", text.as_str());
            return Err(early_failure(ALLOCATE, message));
        },
    };
    let table = match new_table(&mut store, 1, u32::MAX) {
        Ok(table) => table,
        Err(error) => {
            let text = error_text(&error);
            let message = join2("failed to allocate Wasm table: ", text.as_str());
            return Err(early_failure(ALLOCATE, message));
        },
    };
    let stack_pointer_global = new_global(&mut store, true, 0);
    let state = store_data_mut(&mut store);
    state.memory = Some(memory);
    state.table = Some(table);
    let stdlib_symbols = stdlib_symbols(imports);
    let stdlib_fns = unresolved(stdlib_symbols.len());
    let mut inner = StoreInner {
        engine,
        store,
        memory,
        table,
        lexer_address: 0,
        instances: Vec::new(),
        stdlib_symbols,
        stdlib_fns,
        builtin_fns,
        stack_pointer_global,
        current_memory_offset: 0,
        current_function_table_offset: 0,
        current_instance: None,
        has_error: false,
    };
    assert(functions.grows_to(inner.held()));
    assert(are_lexer_functions(inner.held(), lexer_fns@));

    let ghost start = inner;
    assert(store_begun(start, pages as int));
    match set_up_stdlib(&mut inner, &module, &lexer_fns, pages) {
        Ok(_) => {},
        Err((kind, message)) => {
            assert(stdlib_refused(start, stdlib_wasm@, kind, message@, inner.held()));
            let mut debug_messages: Vec<String> = Vec::new();
            std::mem::swap(
                &mut debug_messages,
                &mut store_data_mut(&mut inner.store).debug_messages,
            );
            return Err(StoreFailure { kind, message, debug_messages });
        },
    }
    assert(stdlib_set_up(start, stdlib_wasm@, pages as int, inner));
    Ok(inner)
}

} // verus!
