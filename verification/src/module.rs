//! Grammar modules: instantiation, and the records of what is instantiated.

use vstd::prelude::*;

use crate::bridge::{adds_globals, is_builtin, provide_builtin_import, provides};
use crate::callbacks::{places_kept, state_kept};
use crate::dylink::DylinkInfo;
use crate::engine::{owns_func, running_keeps_the_store_usable, StoreInner};
use crate::error::{WasmResult, INSTANTIATE};
use crate::memory::{MEMORY_PAGE_SIZE, SERIALIZATION_BUFFER_SIZE};
use crate::runtime::{
    blank_pages, call_function, call_leads_to, empty_entries, error_message, error_text, get_export,
    grow_memory, grow_table, growth_is_transitive, instantiate_module, instantiation_leads_to,
    memory_data, memory_growth_refused, module_engine, module_exports, module_imports,
    module_source, same_engine, table_growth_refused, wasm_exports, wasm_imports, Export, Import,
    StoreContents,
};
use crate::text::{decimal, is_position, join2, join3, position, same_text, texts, to_decimal};

verus! {

/// Whether `name` is that of an export to be called when a module is
/// instantiated.
pub open spec fn initializes(name: Seq<char>) -> bool {
    name == "_initialize"@ || name == "__wasm_apply_data_relocs"@ || name == "__wasm_call_ctors"@
}

/// Whether `name` is that of an export to be called when a module is
/// instantiated.
pub fn is_module_initializer(name: &str) -> (yes: bool)
    ensures
        yes == initializes(name@),
{
    same_text(name, "_initialize") || same_text(name, "__wasm_apply_data_relocs") || same_text(
        name,
        "__wasm_call_ctors",
    )
}

/// Whether `name` is among the first `count` of `names`.
pub open spec fn listed(names: Seq<Seq<char>>, count: int, name: Seq<char>) -> bool {
    exists|i: int| 0 <= i < count && i < names.len() && #[trigger] names[i] == name
}

/// The function that is exported under `name`, which must be listed.
pub open spec fn exported_func(
    exports: Map<Seq<char>, Export>,
    names: Seq<Seq<char>>,
    count: int,
    name: Seq<char>,
) -> Option<wasmtime::Func> {
    if listed(names, count, name) && exports.contains_key(name) {
        match exports[name] {
            Export::Func(func) => Some(func),
            _ => None,
        }
    } else {
        None
    }
}

/// The function that is exported under `name`, where it is to be called when
/// the module is instantiated.
pub open spec fn initializer(exports: Map<Seq<char>, Export>, name: Seq<char>) -> Option<
    wasmtime::Func,
> {
    if initializes(name) && exports.contains_key(name) {
        match exports[name] {
            Export::Func(func) => Some(func),
            _ => None,
        }
    } else {
        None
    }
}

/// Whether the step from one state of a store to the next is a call of the
/// initializer under the name of that step, where there is one.
pub open spec fn initializer_step(
    exports: Map<Seq<char>, Export>,
    names: Seq<Seq<char>>,
    states: Seq<StoreContents>,
    step: int,
) -> bool {
    match initializer(exports, names[step]) {
        Some(func) => call_leads_to(
            states[step],
            func,
            seq![],
            0,
            Ok(seq![]),
            states[step + 1],
        ),
        None => states[step + 1] == states[step],
    }
}

/// Whether `states` are those that a store passes through while initializers
/// run.
pub open spec fn initializer_run(
    exports: Map<Seq<char>, Export>,
    names: Seq<Seq<char>>,
    states: Seq<StoreContents>,
) -> bool {
    forall|step: int|
        0 <= step < states.len() - 1 ==> #[trigger] initializer_step(exports, names, states, step)
}

/// Whether the initializers among the first `count` exports, called in their
/// order, can lead from one state of a store to another.
pub open spec fn initializers_ran(
    exports: Map<Seq<char>, Export>,
    names: Seq<Seq<char>>,
    count: nat,
    before: StoreContents,
    after: StoreContents,
) -> bool {
    exists|states: Seq<StoreContents>|
        {
            &&& #[trigger] initializer_run(exports, names, states)
            &&& states.len() == count + 1
            &&& states.first() == before
            &&& states.last() == after
        }
}

/// No initializer leads nowhere.
pub proof fn initializers_start(
    exports: Map<Seq<char>, Export>,
    names: Seq<Seq<char>>,
    before: StoreContents,
)
    ensures
        initializers_ran(exports, names, 0, before, before),
{
    assert(initializer_run(exports, names, seq![before]));
}

/// One more initializer leads one step further.
pub proof fn initializers_run_on(
    exports: Map<Seq<char>, Export>,
    names: Seq<Seq<char>>,
    count: nat,
    before: StoreContents,
    middle: StoreContents,
    after: StoreContents,
)
    requires
        initializers_ran(exports, names, count, before, middle),
        match initializer(exports, names[count as int]) {
            Some(func) => call_leads_to(middle, func, seq![], 0, Ok(seq![]), after),
            None => after == middle,
        },
    ensures
        initializers_ran(exports, names, count + 1, before, after),
{
    let states = choose|states: Seq<StoreContents>|
        {
            &&& #[trigger] initializer_run(exports, names, states)
            &&& states.len() == count + 1
            &&& states.first() == before
            &&& states.last() == middle
        };
    let longer = states.push(after);
    assert forall|step: int| 0 <= step < longer.len() - 1 implies #[trigger] initializer_step(
        exports,
        names,
        longer,
        step,
    ) by {
        if step < count {
            assert(initializer_step(exports, names, states, step));
        }
    }
    assert(initializer_run(exports, names, longer));
}

/// Whether one of the initializers, the ones before it called in their order,
/// can fail with an error of the given text.
pub open spec fn initializer_failed(
    exports: Map<Seq<char>, Export>,
    names: Seq<Seq<char>>,
    before: StoreContents,
    after: StoreContents,
    text: Seq<char>,
) -> bool {
    exists|count: nat, middle: StoreContents|
        {
            &&& count < names.len()
            &&& #[trigger] initializers_ran(exports, names, count, before, middle)
            &&& initializer(exports, names[count as int]) matches Some(func) && call_leads_to(
                middle,
                func,
                seq![],
                0,
                Err(text),
                after,
            )
        }
}

/// The text of a failure to grow the function table.
pub open spec fn table_size_message(info: DylinkInfo) -> Seq<char> {
    "invalid function table size "@ + decimal(info.table_size as nat)
}

/// The text of a failure to grow the memory.
pub open spec fn memory_size_message(info: DylinkInfo) -> Seq<char> {
    "invalid memory size "@ + decimal(info.memory_size as nat)
}

/// Whether the store has room for a module: for its data behind the placement
/// offset and in front of the serialization buffer, and for its table entries.
pub open spec fn has_room(inner: StoreInner, info: DylinkInfo) -> bool {
    &&& needed_memory(inner, info) <= inner.bytes().len()
    &&& needed_memory(inner, info) <= u32::MAX
    &&& inner.current_function_table_offset + info.table_size <= inner.entries().len()
    &&& inner.current_function_table_offset + info.table_size <= u32::MAX
}

/// How many bytes the memory must have for a module to fit.
pub open spec fn needed_memory(inner: StoreInner, info: DylinkInfo) -> int {
    inner.current_memory_offset + SERIALIZATION_BUFFER_SIZE + info.memory_size
}

/// How many pages hold `size` bytes.
pub open spec fn pages_for(size: int) -> int {
    (size + MEMORY_PAGE_SIZE - 1) / MEMORY_PAGE_SIZE as int
}

/// How many pages the memory lacks for a module to fit.
pub open spec fn missing_pages(inner: StoreInner, info: DylinkInfo) -> int {
    if needed_memory(inner, info) > inner.bytes().len() {
        pages_for(needed_memory(inner, info) - inner.bytes().len())
    } else {
        0
    }
}

/// What a store holds once its function table has the entries of a module more.
pub open spec fn with_entries(before: StoreInner, info: DylinkInfo) -> StoreContents {
    before.held().with_table(
        before.table,
        before.entries() + empty_entries(info.table_size as nat),
    )
}

/// What a store holds once there is room for a module: its function table has
/// the entries of the module more, and its memory the pages that it lacked.
pub open spec fn with_room(before: StoreInner, info: DylinkInfo) -> StoreContents {
    with_entries(before, info).with_memory(
        before.memory,
        before.bytes() + blank_pages(missing_pages(before, info)),
    )
}

/// Whether `room` is the store once there is room for a module.
pub open spec fn room_made(before: StoreInner, info: DylinkInfo, room: StoreInner) -> bool {
    &&& room == (StoreInner { store: room.store, ..before })
    &&& has_room(room, info)
    &&& room.held() == with_room(before, info)
}

/// Whether the function table cannot take the entries of a module.
pub open spec fn table_is_full(before: StoreInner, info: DylinkInfo) -> bool {
    ||| before.current_function_table_offset + info.table_size > u32::MAX
    ||| exists|text: Seq<char>|
        info.table_size > 0 && #[trigger] table_growth_refused(
            before.held(),
            before.table,
            info.table_size as u64,
            text,
        )
}

/// Whether the memory cannot take the data of a module, once the function table
/// has its entries.
pub open spec fn memory_is_full(before: StoreInner, info: DylinkInfo) -> bool {
    let needed = needed_memory(before, info);
    let size = before.bytes().len();
    ||| needed > u32::MAX
    ||| needed > size && memory_growth_refused(
        with_entries(before, info),
        before.memory,
        pages_for(needed - size) as u64,
    )
}

/// Whether making room for a module fails like this. What the function table
/// has grown by then stays.
pub open spec fn room_refused(
    before: StoreInner,
    info: DylinkInfo,
    after: StoreContents,
    kind: u32,
    message: Seq<char>,
) -> bool {
    &&& kind == INSTANTIATE
    &&& {
        ||| {
            &&& table_is_full(before, info)
            &&& after == before.held()
            &&& message == table_size_message(info)
        }
        ||| {
            &&& before.current_function_table_offset + info.table_size <= u32::MAX
            &&& memory_is_full(before, info)
            &&& after == with_entries(before, info)
            &&& message == memory_size_message(info)
        }
    }
}

/// Makes room for a module: grows the shared function table by its entries, and
/// the shared memory where it is too small. What has grown stays.
pub fn make_room(inner: &mut StoreInner, info: &DylinkInfo) -> (result: WasmResult<()>)
    requires
        old(inner).wf(),
    ensures
        final(inner).wf(),
        *final(inner) == (StoreInner { store: final(inner).store, ..*old(inner) }),
        old(inner).held().grows_to(final(inner).held()),
        final(inner).held().state == old(inner).held().state,
        match result {
            Ok(_) => room_made(*old(inner), *info, *final(inner)),
            Err((kind, message)) => room_refused(
                *old(inner),
                *info,
                final(inner).held(),
                kind,
                message@,
            ),
        },
{
    let table_end = inner.current_function_table_offset as u64 + info.table_size as u64;
    if table_end > u32::MAX as u64 {
        return Err((INSTANTIATE, table_size_failure(info)));
    }
    match grow_table(&mut inner.store, inner.table, info.table_size as u64) {
        Ok(_) => {},
        Err(error) => {
            assert(table_growth_refused(
                old(inner).held(),
                old(inner).table,
                info.table_size as u64,
                error_message(error),
            ));
            return Err((INSTANTIATE, table_size_failure(info)));
        },
    }
    proof {
        running_keeps_the_store_usable(*old(inner), *inner);
    }
    let needed = inner.heap_address() as u64 + info.memory_size as u64;
    let size = memory_data(&inner.store, inner.memory).len() as u64;
    if needed > u32::MAX as u64 {
        return Err((INSTANTIATE, memory_size_failure(info)));
    }
    if needed > size {
        let page = MEMORY_PAGE_SIZE as u64;
        let pages = (needed - size + (page - 1)) / page;
        match grow_memory(&mut inner.store, inner.memory, pages) {
            Ok(_) => {},
            Err(_) => {
                return Err((INSTANTIATE, memory_size_failure(info)));
            },
        }
    }
    proof {
        running_keeps_the_store_usable(*old(inner), *inner);
        assert(inner.bytes() =~= old(inner).bytes() + blank_pages(
            missing_pages(*old(inner), *info),
        ));
        assert(inner.held().memories =~= old(inner).held().memories.insert(
            inner.memory,
            inner.bytes(),
        ));
    }
    Ok(())
}

/// Says that the function table cannot grow.
fn table_size_failure(info: &DylinkInfo) -> (message: String)
    ensures
        message@ == table_size_message(*info),
{
    join2("invalid function table size ", to_decimal(info.table_size as u64).as_str())
}

/// Says that the memory cannot grow.
fn memory_size_failure(info: &DylinkInfo) -> (message: String)
    ensures
        message@ == memory_size_message(*info),
{
    join2("invalid memory size ", to_decimal(info.memory_size as u64).as_str())
}

/// Why a grammar module cannot import anything under `name`.
pub open spec fn import_failure(symbols: Seq<Seq<char>>, name: Seq<char>) -> Option<Seq<char>> {
    if name.len() == 0 {
        Some("empty import name"@)
    } else if is_builtin(name) || symbols.contains(name) {
        None
    } else {
        Some("invalid import '"@ + name + "'\n"@)
    }
}

/// Whether `import` is what a grammar module gets under `name`: what the store
/// provides, else the function of the stdlib.
pub open spec fn supplies(
    inner: StoreInner,
    store: StoreContents,
    name: Seq<char>,
    import: Import,
) -> bool {
    if is_builtin(name) {
        provides(inner, store, name, import)
    } else {
        exists|index: usize|
            #[trigger] is_position(texts(inner.stdlib_symbols@), name, Some(index)) && import
                == Import::Func(inner.stdlib_fns@[index as int]->0)
    }
}

/// Whether `imports` are what a grammar module gets for everything that is
/// wanted.
pub open spec fn all_supplied(
    inner: StoreInner,
    store: StoreContents,
    wanted: Seq<(Seq<char>, Option<u64>)>,
    imports: Seq<Import>,
) -> bool {
    &&& imports.len() == wanted.len()
    &&& forall|i: int|
        0 <= i < imports.len() ==> store.owns(#[trigger] imports[i]) && supplies(
            inner,
            store,
            wanted[i].0,
            imports[i],
        )
}

/// Whether a failure is that of the first import that there is none of.
pub open spec fn import_refused(
    symbols: Seq<Seq<char>>,
    wanted: Seq<(Seq<char>, Option<u64>)>,
    kind: u32,
    message: Seq<char>,
) -> bool {
    exists|i: int|
        {
            &&& 0 <= i < wanted.len()
            &&& import_failure(symbols, (#[trigger] wanted[i]).0) == Some(message)
            &&& forall|k: int|
                0 <= k < i ==> import_failure(symbols, (#[trigger] wanted[k]).0) is None
            &&& kind == INSTANTIATE
        }
}

/// Collects what a grammar module imports.
pub fn collect_imports(inner: &mut StoreInner, module: &wasmtime::Module) -> (imports: WasmResult<
    Vec<Import>,
>)
    requires
        old(inner).wf(),
    ensures
        *final(inner) == (StoreInner { store: final(inner).store, ..*old(inner) }),
        final(inner).wf(),
        adds_globals(old(inner).held(), final(inner).held()),
        match imports {
            Ok(imports) => all_supplied(
                *old(inner),
                final(inner).held(),
                wasm_imports(module_source(*module)),
                imports@,
            ) && forall|i: int|
                0 <= i < imports@.len() ==> import_failure(
                    texts(old(inner).stdlib_symbols@),
                    (#[trigger] wasm_imports(module_source(*module))[i]).0,
                ) is None,
            Err((kind, message)) => import_refused(
                texts(old(inner).stdlib_symbols@),
                wasm_imports(module_source(*module)),
                kind,
                message@,
            ),
        },
{
    let wanted = module_imports(module);
    let ghost names = wasm_imports(module_source(*module));
    let ghost symbols = texts(inner.stdlib_symbols@);
    let mut imports: Vec<Import> = Vec::new();
    let mut i: usize = 0;
    while i < wanted.len()
        invariant
            i <= wanted@.len(),
            imports@.len() == i,
            names == wasm_imports(module_source(*module)),
            symbols == texts(old(inner).stdlib_symbols@),
            wanted@.len() == names.len(),
            forall|k: int| 0 <= k < names.len() ==> (#[trigger] wanted@[k]).0@ == names[k].0,
            old(inner).wf(),
            *inner == (StoreInner { store: inner.store, ..*old(inner) }),
            inner.wf(),
            adds_globals(old(inner).held(), inner.held()),
            forall|k: int|
                0 <= k < i ==> inner.held().owns(#[trigger] imports@[k]) && supplies(
                    *old(inner),
                    inner.held(),
                    names[k].0,
                    imports@[k],
                ),
            forall|k: int|
                0 <= k < i ==> import_failure(symbols, (#[trigger] names[k]).0) is None,
        decreases wanted@.len() - i,
    {
        let ghost before = *inner;
        let name = wanted[i].0.as_str();
        if name.is_empty() {
            proof {
                assert(import_failure(symbols, names[i as int].0) == Some("empty import name"@));
            }
            return Err((INSTANTIATE, "empty import name".to_owned()));
        }
        let provided = provide_builtin_import(inner, name);
        proof {
            growth_is_transitive(old(inner).held(), before.held(), inner.held());
            running_keeps_the_store_usable(before, *inner);
        }
        let import = match provided {
            Some(import) => import,
            None => match position(inner.stdlib_symbols.as_slice(), name) {
                Some(index) => {
                    assert(inner.stdlib_fns@[index as int] is Some);
                    assert(owns_func(inner.held(), inner.stdlib_fns@[index as int]));
                    assert(symbols.contains(names[i as int].0));
                    Import::Func(inner.stdlib_fns[index].unwrap())
                },
                None => {
                    let message = join3("invalid import '", name, "'\n");
                    assert(import_failure(symbols, names[i as int].0) == Some(message@));
                    return Err((INSTANTIATE, message));
                },
            },
        };
        imports.push(import);
        i += 1;
    }
    Ok(imports)
}

/// What a language function that was called came to.
pub open spec fn language_call_failure(
    function_name: Seq<char>,
    outcome: Result<Seq<Option<i32>>, Seq<char>>,
) -> Option<Seq<char>> {
    match outcome {
        Ok(values) => if values.len() == 1 && values[0] is Some {
            None
        } else {
            Some("language function did not return an integer: "@ + function_name + "\n"@)
        },
        Err(text) => Some(
            "trapped when calling language function: "@ + function_name + ": "@ + (text + "\n"@),
        ),
    }
}

/// Whether the initializers of an instance ran, in their order, and then its
/// language function, which returned `address`.
pub open spec fn language_found(
    exports: Map<Seq<char>, Export>,
    names: Seq<Seq<char>>,
    function_name: Seq<char>,
    before: StoreContents,
    after: StoreContents,
    address: i32,
) -> bool {
    let func = exported_func(exports, names, names.len() as int, function_name);
    &&& !initializes(function_name)
    &&& func is Some
    &&& exists|initialized: StoreContents|
        #[trigger] initializers_ran(exports, names, names.len(), before, initialized)
            && call_leads_to(
            initialized,
            func->0,
            seq![],
            1,
            Ok(seq![Some(address)]),
            after,
        )
}

/// Whether finding the language of an instance can fail like this: an
/// initializer fails, the language function does not exist, or its call comes
/// to nothing.
pub open spec fn language_missed(
    exports: Map<Seq<char>, Export>,
    names: Seq<Seq<char>>,
    function_name: Seq<char>,
    before: StoreContents,
    after: StoreContents,
    kind: u32,
    message: Seq<char>,
) -> bool {
    let func = exported_func(exports, names, names.len() as int, function_name);
    &&& kind == INSTANTIATE
    &&& {
        ||| exists|text: Seq<char>|
            #[trigger] initializer_failed(exports, names, before, after, text) && message
                == "trap when calling data relocation function: "@ + text + "\n"@
        ||| {
            &&& initializes(function_name) || func is None
            &&& initializers_ran(exports, names, names.len(), before, after)
            &&& message == "module did not contain language function: "@ + function_name
        }
        ||| {
            &&& !initializes(function_name)
            &&& func is Some
            &&& exists|
                initialized: StoreContents,
                outcome: Result<Seq<Option<i32>>, Seq<char>>,
            |
                {
                    &&& #[trigger] initializers_ran(
                        exports,
                        names,
                        names.len(),
                        before,
                        initialized,
                    )
                    &&& #[trigger] call_leads_to(
                        initialized,
                        func->0,
                        seq![],
                        1,
                        outcome,
                        after,
                    )
                    &&& language_call_failure(function_name, outcome) == Some(message)
                }
        }
    }
}

/// Takes the address of a language from what its language function returned.
pub fn take_language_address(
    values: &[Option<i32>],
    function_name: &str,
) -> (address: WasmResult<i32>)
    ensures
        match address {
            Ok(address) => values@ == seq![Some(address)],
            Err((kind, message)) => kind == INSTANTIATE && language_call_failure(
                function_name@,
                Ok(values@),
            ) == Some(message@),
        },
{
    if values.len() == 1 {
        match values[0] {
            Some(address) => {
                assert(values@ =~= seq![Some(address)]);
                return Ok(address);
            },
            None => {},
        }
    }
    Err(
        (
            INSTANTIATE,
            join3("language function did not return an integer: ", function_name, "\n"),
        ),
    )
}

/// Runs the initializers of a new instance, then its language function, which
/// returns the address of its language.
pub fn find_language(
    inner: &mut StoreInner,
    instance: wasmtime::Instance,
    module: &wasmtime::Module,
    function_name: &str,
) -> (address: WasmResult<i32>)
    requires
        old(inner).wf(),
        old(inner).held().instances.contains_key(instance),
    ensures
        final(inner).wf(),
        *final(inner) == (StoreInner { store: final(inner).store, ..*old(inner) }),
        old(inner).held().grows_to(final(inner).held()),
        state_kept(old(inner).held().state, final(inner).held().state),
        match address {
            Ok(address) => language_found(
                old(inner).held().instances[instance],
                wasm_exports(module_source(*module)),
                function_name@,
                old(inner).held(),
                final(inner).held(),
                address,
            ),
            Err((kind, message)) => language_missed(
                old(inner).held().instances[instance],
                wasm_exports(module_source(*module)),
                function_name@,
                old(inner).held(),
                final(inner).held(),
                kind,
                message@,
            ),
        },
{
    let names = module_exports(module);
    let ghost exports = inner.held().instances[instance];
    let ghost listing = wasm_exports(module_source(*module));
    let ghost start = inner.held();
    let args: [i32; 0] = [];
    assert(args@ =~= seq![]);
    proof {
        initializers_start(exports, listing, start);
    }
    let mut language_func: Option<wasmtime::Func> = None;
    let mut i: usize = 0;
    while i < names.len()
        invariant
            i <= names@.len(),
            names@.len() == listing.len(),
            listing == wasm_exports(module_source(*module)),
            forall|k: int| 0 <= k < names@.len() ==> (#[trigger] names@[k])@ == listing[k],
            args@ == Seq::<i32>::empty(),
            start == old(inner).held(),
            exports == start.instances[instance],
            start.instances.contains_key(instance),
            old(inner).wf(),
            inner.wf(),
            *inner == (StoreInner { store: inner.store, ..*old(inner) }),
            start.grows_to(inner.held()),
            state_kept(start.state, inner.held().state),
            initializers_ran(exports, listing, i as nat, start, inner.held()),
            language_func == if initializes(function_name@) {
                None
            } else {
                exported_func(exports, listing, i as int, function_name@)
            },
            owns_func(inner.held(), language_func),
        decreases names@.len() - i,
    {
        let name = names[i].as_str();
        let ghost before = *inner;
        assert(listed(listing, i + 1, function_name@) <==> listed(
            listing,
            i as int,
            function_name@,
        ) || function_name@ == listing[i as int]);
        if is_module_initializer(name) {
            match get_export(&mut inner.store, instance, name) {
                Some(Export::Func(func)) => {
                    match call_function(&mut inner.store, func, &args, 0) {
                        Ok(values) => {
                            assert(values@ =~= seq![]);
                            assert(call_leads_to(
                                before.held(),
                                func,
                                seq![],
                                0,
                                Ok(seq![]),
                                inner.held(),
                            ));
                        },
                        Err(error) => {
                            proof {
                                growth_is_transitive(start, before.held(), inner.held());
                                running_keeps_the_store_usable(*old(inner), *inner);
                                assert(initializer_failed(
                                    exports,
                                    listing,
                                    start,
                                    inner.held(),
                                    error_message(error),
                                ));
                            }
                            return Err(
                                (
                                    INSTANTIATE,
                                    join3(
                                        "trap when calling data relocation function: ",
                                        error_text(&error).as_str(),
                                        "\n",
                                    ),
                                ),
                            );
                        },
                    }
                },
                _ => {},
            }
        } else if same_text(name, function_name) {
            match get_export(&mut inner.store, instance, name) {
                Some(Export::Func(func)) => {
                    language_func = Some(func);
                },
                _ => {},
            }
        }
        proof {
            growth_is_transitive(start, before.held(), inner.held());
            running_keeps_the_store_usable(*old(inner), *inner);
            initializers_run_on(
                exports,
                listing,
                i as nat,
                start,
                before.held(),
                inner.held(),
            );
        }
        i += 1;
    }
    let func = match language_func {
        Some(func) => func,
        None => {
            return Err(
                (
                    INSTANTIATE,
                    join2("module did not contain language function: ", function_name),
                ),
            );
        },
    };
    let ghost initialized = inner.held();
    match call_function(&mut inner.store, func, &args, 1) {
        Ok(values) => {
            proof {
                growth_is_transitive(start, initialized, inner.held());
                running_keeps_the_store_usable(*old(inner), *inner);
                assert(call_leads_to(initialized, func, seq![], 1, Ok(values@), inner.held()));
            }
            take_language_address(values.as_slice(), function_name)
        },
        Err(error) => {
            let text = error_text(&error);
            proof {
                growth_is_transitive(start, initialized, inner.held());
                running_keeps_the_store_usable(*old(inner), *inner);
                assert(call_leads_to(
                    initialized,
                    func,
                    seq![],
                    1,
                    Err(error_message(error)),
                    inner.held(),
                ));
            }
            let start_of_message = join3(
                "trapped when calling language function: ",
                function_name,
                ": ",
            );
            let rest = join2(text.as_str(), "\n");
            Err((INSTANTIATE, join2(start_of_message.as_str(), rest.as_str())))
        },
    }
}

/// The name of the language function of a language.
pub open spec fn language_function_name(language_name: Seq<char>) -> Seq<char> {
    "tree_sitter_"@ + language_name
}

/// Whether everything that a grammar module wants can be had.
pub open spec fn all_known(
    symbols: Seq<Seq<char>>,
    wanted: Seq<(Seq<char>, Option<u64>)>,
) -> bool {
    forall|i: int|
        0 <= i < wanted.len() ==> import_failure(symbols, (#[trigger] wanted[i]).0) is None
}

/// Whether instantiating `module`, which found room at the offsets of `before`
/// and was given what it imports, came to `outcome`: the instance, or the text of
/// an error. A module of another engine cannot be instantiated.
pub open spec fn instantiation_ended(
    before: StoreInner,
    module: wasmtime::Module,
    info: DylinkInfo,
    outcome: Result<wasmtime::Instance, Seq<char>>,
    after: StoreContents,
) -> bool {
    let wanted = wasm_imports(module_source(module));
    exists|room: StoreInner, ready: StoreContents, imports: Seq<Import>|
        {
            &&& room_made(before, info, room)
            &&& all_known(texts(before.stdlib_symbols@), wanted)
            &&& adds_globals(room.held(), ready)
            &&& #[trigger] all_supplied(room, ready, wanted, imports)
            &&& if module_engine(module) == before.engine {
                instantiation_leads_to(ready, module, imports, outcome, after)
            } else {
                outcome == Err::<wasmtime::Instance, _>(other_engine_message()) && after == ready
            }
        }
}

/// The text of a failure to instantiate a module of another engine.
pub open spec fn other_engine_message() -> Seq<char> {
    "cross-`Engine` instantiation is not currently supported"@
}

/// Whether `instance` is one of `module`, which found room at the offsets of
/// `before` and was given what it imports.
pub open spec fn module_linked(
    before: StoreInner,
    module: wasmtime::Module,
    info: DylinkInfo,
    after: StoreContents,
    instance: wasmtime::Instance,
) -> bool {
    instantiation_ended(before, module, info, Ok(instance), after)
}

/// Whether `instance` is one of `module`, which was placed at the offsets of
/// `before`, given what it imports and initialized, and whose language stands
/// at `address`.
pub open spec fn module_instantiated(
    before: StoreInner,
    module: wasmtime::Module,
    language_name: Seq<char>,
    info: DylinkInfo,
    after: StoreContents,
    instance: wasmtime::Instance,
    address: i32,
) -> bool {
    exists|instantiated: StoreContents|
        #[trigger] module_linked(before, module, info, instantiated, instance) && language_found(
            instantiated.instances[instance],
            wasm_exports(module_source(module)),
            language_function_name(language_name),
            instantiated,
            after,
            address,
        )
}

/// Whether something that a grammar module wants cannot be had, once there is
/// room for the module. What has grown by then stays.
pub open spec fn imports_refused(
    before: StoreInner,
    module: wasmtime::Module,
    info: DylinkInfo,
    after: StoreContents,
    kind: u32,
    message: Seq<char>,
) -> bool {
    exists|room: StoreInner|
        {
            &&& #[trigger] room_made(before, info, room)
            &&& adds_globals(room.held(), after)
            &&& import_refused(
                texts(before.stdlib_symbols@),
                wasm_imports(module_source(module)),
                kind,
                message,
            )
        }
}

/// Whether linking a grammar module can fail like this. The runtime may refuse
/// any module.
pub open spec fn link_refused(
    before: StoreInner,
    module: wasmtime::Module,
    info: DylinkInfo,
    after: StoreContents,
    kind: u32,
    message: Seq<char>,
) -> bool {
    ||| room_refused(before, info, after, kind, message)
    ||| imports_refused(before, module, info, after, kind, message)
    ||| kind == INSTANTIATE && exists|text: Seq<char>|
        #[trigger] instantiation_ended(before, module, info, Err(text), after) && message
            == "error instantiating Wasm module: "@ + text + "\n"@
}

/// Whether instantiating a grammar module can fail like this: it cannot be
/// linked, or its language is not found.
pub open spec fn module_refused(
    before: StoreInner,
    module: wasmtime::Module,
    language_name: Seq<char>,
    info: DylinkInfo,
    after: StoreContents,
    kind: u32,
    message: Seq<char>,
) -> bool {
    ||| link_refused(before, module, info, after, kind, message)
    ||| exists|instance: wasmtime::Instance, instantiated: StoreContents|
        #[trigger] module_linked(before, module, info, instantiated, instance) && language_missed(
            instantiated.instances[instance],
            wasm_exports(module_source(module)),
            language_function_name(language_name),
            instantiated,
            after,
            kind,
            message,
        )
}

/// Room for a module stays, whatever runs in the store.
proof fn room_stays(before: StoreInner, after: StoreInner, info: DylinkInfo)
    requires
        before.wf(),
        has_room(before, info),
        before.held().grows_to(after.held()),
        places_kept(before.held().state, after.held().state),
        after == (StoreInner { store: after.store, ..before }),
    ensures
        after.wf(),
        has_room(after, info),
{
    running_keeps_the_store_usable(before, after);
}

/// Instantiates a grammar module with what it imports. The text of an error is
/// returned; that of a module of another engine is the same for all.
fn instantiate_supplied(
    inner: &mut StoreInner,
    module: &wasmtime::Module,
    imports: &[Import],
) -> (outcome: Result<wasmtime::Instance, String>)
    requires
        old(inner).wf(),
        forall|i: int|
            0 <= i < imports@.len() ==> old(inner).held().owns(#[trigger] imports@[i]),
    ensures
        *final(inner) == (StoreInner { store: final(inner).store, ..*old(inner) }),
        old(inner).held().grows_to(final(inner).held()),
        state_kept(old(inner).held().state, final(inner).held().state),
        outcome matches Ok(instance) ==> final(inner).held().instances.contains_key(instance),
        if module_engine(*module) == old(inner).engine {
            instantiation_leads_to(
                old(inner).held(),
                *module,
                imports@,
                match outcome {
                    Ok(instance) => Ok(instance),
                    Err(text) => Err(text@),
                },
                final(inner).held(),
            )
        } else {
            &&& outcome matches Err(text) && text@ == other_engine_message()
            &&& final(inner).held() == old(inner).held()
        },
{
    if !same_engine(&inner.store, module) {
        return Err("cross-`Engine` instantiation is not currently supported".to_owned());
    }
    match instantiate_module(&mut inner.store, module, imports) {
        Ok(instance) => Ok(instance),
        Err(error) => Err(error_text(&error)),
    }
}

/// Makes room for a grammar module, gives it what it imports, and instantiates
/// it.
pub fn link_module(inner: &mut StoreInner, module: &wasmtime::Module, info: &DylinkInfo) -> (result:
    WasmResult<wasmtime::Instance>)
    requires
        old(inner).wf(),
    ensures
        final(inner).wf(),
        old(inner).held().grows_to(final(inner).held()),
        state_kept(old(inner).held().state, final(inner).held().state),
        *final(inner) == (StoreInner { store: final(inner).store, ..*old(inner) }),
        match result {
            Ok(instance) => {
                &&& has_room(*final(inner), *info)
                &&& final(inner).held().instances.contains_key(instance)
                &&& module_linked(*old(inner), *module, *info, final(inner).held(), instance)
            },
            Err((kind, message)) => link_refused(
                *old(inner),
                *module,
                *info,
                final(inner).held(),
                kind,
                message@,
            ),
        },
{
    match make_room(inner, info) {
        Ok(_) => {},
        Err(failure) => {
            return Err(failure);
        },
    }
    let ghost room = *inner;
    assert(room_made(*old(inner), *info, room));
    let collected = collect_imports(inner, module);
    let ghost ready = *inner;
    proof {
        growth_is_transitive(old(inner).held(), room.held(), ready.held());
    }
    let imports = match collected {
        Ok(imports) => imports,
        Err(failure) => {
            return Err(failure);
        },
    };
    let outcome = instantiate_supplied(inner, module, imports.as_slice());
    proof {
        growth_is_transitive(old(inner).held(), ready.held(), inner.held());
        growth_is_transitive(room.held(), ready.held(), inner.held());
        room_stays(room, *inner, *info);
        assert(all_known(
            texts(old(inner).stdlib_symbols@),
            wasm_imports(module_source(*module)),
        ));
        assert(all_supplied(
            room,
            ready.held(),
            wasm_imports(module_source(*module)),
            imports@,
        ));
    }
    match outcome {
        Ok(instance) => Ok(instance),
        Err(text) => {
            let message = join3("error instantiating Wasm module: ", text.as_str(), "\n");
            assert(instantiation_ended(
                *old(inner),
                *module,
                *info,
                Err(text@),
                inner.held(),
            ));
            Err((INSTANTIATE, message))
        },
    }
}

/// A store with room for a module stays usable when the placement offsets move
/// past the module.
proof fn placement_moves_on(before: StoreInner, after: StoreInner, info: DylinkInfo)
    requires
        before.wf(),
        has_room(before, info),
        after == (StoreInner {
            current_memory_offset: (before.current_memory_offset + info.memory_size) as u32,
            current_function_table_offset: (before.current_function_table_offset
                + info.table_size) as u32,
            ..before
        }),
    ensures
        after.wf(),
{
}

/// Instantiates a grammar module: grows the shared table and the shared memory,
/// gives it what it imports, runs its initializers, and returns the instance
/// and the address of its language.
pub fn instantiate_inner(
    inner: &mut StoreInner,
    module: &wasmtime::Module,
    language_name: &str,
    info: &DylinkInfo,
) -> (result: WasmResult<(wasmtime::Instance, i32)>)
    requires
        old(inner).wf(),
    ensures
        final(inner).linked(),
        final(inner).complete(),
        old(inner).held().grows_to(final(inner).held()),
        state_kept(old(inner).held().state, final(inner).held().state),
        *final(inner) == (StoreInner {
            store: final(inner).store,
            current_memory_offset: final(inner).current_memory_offset,
            current_function_table_offset: final(inner).current_function_table_offset,
            ..*old(inner)
        }),
        match result {
            Ok((instance, address)) => {
                &&& final(inner).wf()
                &&& final(inner).held().instances.contains_key(instance)
                &&& final(inner).current_memory_offset == old(inner).current_memory_offset
                    + info.memory_size
                &&& final(inner).current_function_table_offset == old(
                    inner,
                ).current_function_table_offset + info.table_size
                &&& module_instantiated(
                    *old(inner),
                    *module,
                    language_name@,
                    *info,
                    final(inner).held(),
                    instance,
                    address,
                )
            },
            Err((kind, message)) => module_refused(
                *old(inner),
                *module,
                language_name@,
                *info,
                final(inner).held(),
                kind,
                message@,
            ),
        },
{
    let instance = match link_module(inner, module, info) {
        Ok(instance) => instance,
        Err(failure) => {
            return Err(failure);
        },
    };
    let ghost placed = *inner;
    let function_name = join2("tree_sitter_", language_name);
    inner.current_memory_offset = inner.current_memory_offset + info.memory_size;
    inner.current_function_table_offset = inner.current_function_table_offset + info.table_size;
    proof {
        placement_moves_on(placed, *inner, *info);
    }
    let found = find_language(inner, instance, module, function_name.as_str());
    proof {
        growth_is_transitive(old(inner).held(), placed.held(), inner.held());
        assert(placed.held().instances.contains_key(instance));
    }
    match found {
        Ok(address) => Ok((instance, address)),
        Err(failure) => Err(failure),
    }
}

/// Instantiates a grammar module. Where that fails the placement offsets are
/// what they were; pages and entries that were added stay, for later modules.
pub fn instantiate(
    inner: &mut StoreInner,
    module: &wasmtime::Module,
    language_name: &str,
    info: &DylinkInfo,
) -> (result: WasmResult<(wasmtime::Instance, i32)>)
    requires
        old(inner).wf(),
    ensures
        final(inner).wf(),
        old(inner).held().grows_to(final(inner).held()),
        state_kept(old(inner).held().state, final(inner).held().state),
        match result {
            Ok((instance, address)) => {
                &&& final(inner).held().instances.contains_key(instance)
                &&& *final(inner) == (StoreInner {
                    store: final(inner).store,
                    current_memory_offset: (old(inner).current_memory_offset
                        + info.memory_size) as u32,
                    current_function_table_offset: (old(inner).current_function_table_offset
                        + info.table_size) as u32,
                    ..*old(inner)
                })
                &&& old(inner).current_memory_offset + info.memory_size <= u32::MAX
                &&& old(inner).current_function_table_offset + info.table_size <= u32::MAX
                &&& module_instantiated(
                    *old(inner),
                    *module,
                    language_name@,
                    *info,
                    final(inner).held(),
                    instance,
                    address,
                )
            },
            Err((kind, message)) => {
                &&& *final(inner) == (StoreInner { store: final(inner).store, ..*old(inner) })
                &&& module_refused(
                    *old(inner),
                    *module,
                    language_name@,
                    *info,
                    final(inner).held(),
                    kind,
                    message@,
                )
            },
        },
{
    let memory_offset = inner.current_memory_offset;
    let function_table_offset = inner.current_function_table_offset;
    let result = instantiate_inner(inner, module, language_name, info);
    if result.is_err() {
        inner.current_memory_offset = memory_offset;
        inner.current_function_table_offset = function_table_offset;
        proof {
            running_keeps_the_store_usable(*old(inner), *inner);
        }
    }
    result
}

} // verus!
