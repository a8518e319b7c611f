//! What loading and using a language does: what a module is given, where it is
//! placed, how its instance is recorded, and why it is refused.

use vstd::prelude::*;

use crate::bridge::{adds_globals, is_builtin, provides};
use crate::callbacks::HostCallback;
use crate::copy_out::{copies_out, instance_addresses, CopyOutput};
use crate::dylink::{dylink_info, DylinkInfo};
use crate::engine::{running_keeps_the_store_usable, LanguageWasmInstance, StoreInner};
use crate::language::{CLanguage, LexFn};
use crate::laws::modules_are_placed_one_behind_the_other;
use crate::layout::{language_at, LANGUAGE_SIZE};
use crate::load::{language_added, language_loaded, language_recorded, load_refused, WasmLanguage};
use crate::memory::in_memory;
use crate::module::{
    all_known, all_supplied, exported_func, initializers_ran, language_found,
    language_function_name, module_instantiated, module_linked, room_made, supplies,
};
use crate::reading::{cast_is_signed, pointer, reads_what_stands, signed};
use crate::records::{cleared, instance_record, missing_entry};
use crate::runtime::{
    call_leads_to, compilation_refused, instantiation_leads_to, module_engine, module_source,
    wasm_exports, wasm_imports, Export, FuncKind, GlobalKind, Import, StoreContents,
};
use crate::text::{is_position, texts};

verus! {

/// Whether a record is that of the language object at `address`: its functions
/// are the table entries that the object names, and its table of valid tokens is
/// where the object says.
pub open spec fn is_wired(
    record: LanguageWasmInstance,
    bytes: Seq<u8>,
    entries: Seq<Option<wasmtime::Func>>,
    address: int,
) -> bool {
    &&& record.external_states_address == pointer(bytes, address + 104)
    &&& takes_entry(record.lex_main_fn, bytes, entries, address + 92)
    &&& takes_entry(record.lex_keyword_fn, bytes, entries, address + 96)
    &&& takes_entry(record.scanner_create_fn, bytes, entries, address + 112)
    &&& takes_entry(record.scanner_destroy_fn, bytes, entries, address + 116)
    &&& takes_entry(record.scanner_scan_fn, bytes, entries, address + 120)
    &&& takes_entry(record.scanner_serialize_fn, bytes, entries, address + 124)
    &&& takes_entry(record.scanner_deserialize_fn, bytes, entries, address + 128)
}

/// Whether `func` is the table entry whose number stands at `at`.
pub open spec fn takes_entry(
    func: Option<wasmtime::Func>,
    bytes: Seq<u8>,
    entries: Seq<Option<wasmtime::Func>>,
    at: int,
) -> bool {
    let index = pointer(bytes, at);
    0 <= index < entries.len() && func == entries[index]
}

/// Whether the language function of an instance, the export that is called
/// `tree_sitter_` and the name of the language, returned `address`.
pub open spec fn language_function_returned(
    instance: wasmtime::Instance,
    language_name: Seq<char>,
    after: StoreContents,
    address: i32,
) -> bool {
    exists|exporting: StoreContents, called: StoreContents, func: wasmtime::Func|
        {
            &&& exporting.instances[instance].contains_key("tree_sitter_"@ + language_name)
            &&& exporting.instances[instance]["tree_sitter_"@ + language_name] == Export::Func(func)
            &&& #[trigger] returned(exporting, called, func, address, after)
        }
}

/// Whether a call of `func` without arguments returned `address`.
pub open spec fn returned(
    exporting: StoreContents,
    called: StoreContents,
    func: wasmtime::Func,
    address: i32,
    after: StoreContents,
) -> bool {
    call_leads_to(called, func, seq![], 1, Ok(seq![Some(address)]), after)
}

/// A module that was instantiated has its language where its language function
/// says.
proof fn languages_stand_where_their_function_says(
    before: StoreInner,
    module: wasmtime::Module,
    language_name: Seq<char>,
    info: DylinkInfo,
    after: StoreContents,
    instance: wasmtime::Instance,
    address: i32,
)
    requires
        module_instantiated(before, module, language_name, info, after, instance, address),
    ensures
        language_function_returned(instance, language_name, after, address),
{
    let instantiated = choose|instantiated: StoreContents|
        #[trigger] module_linked(before, module, info, instantiated, instance) && language_found(
            instantiated.instances[instance],
            wasm_exports(module_source(module)),
            language_function_name(language_name),
            instantiated,
            after,
            address,
        );
    let names = wasm_exports(module_source(module));
    let name = language_function_name(language_name);
    let exports = instantiated.instances[instance];
    let func = exported_func(exports, names, names.len() as int, name)->0;
    let called = choose|called: StoreContents|
        #[trigger] initializers_ran(
            exports,
            names,
            names.len(),
            instantiated,
            called,
        ) && call_leads_to(called, func, seq![], 1, Ok(seq![Some(address)]), after);
    assert(returned(instantiated, called, func, address, after));
}

/// The seven functions and the table of valid tokens of a record stand in the
/// language object.
proof fn records_are_wired(
    bytes: Seq<u8>,
    entries: Seq<Option<wasmtime::Func>>,
    address: i32,
    record: LanguageWasmInstance,
)
    requires
        ({
            let addresses = instance_addresses(
                language_at(bytes, address as int),
            );
            &&& missing_entry(entries, addresses) is None
            &&& record == instance_record(
                entries,
                record.instance,
                record.language_id,
                addresses,
            )
        }),
    ensures
        is_wired(record, bytes, entries, address as int),
{
    reads_what_stands(bytes, address + 92);
    reads_what_stands(bytes, address + 96);
    reads_what_stands(bytes, address + 104);
    reads_what_stands(bytes, address + 112);
    reads_what_stands(bytes, address + 116);
    reads_what_stands(bytes, address + 120);
    reads_what_stands(bytes, address + 124);
    reads_what_stands(bytes, address + 128);
}

/// Whether the last record of a store is that of a language whose function
/// returned `address` there.
pub open spec fn last_record_is_of(
    after: StoreInner,
    language: WasmLanguage,
    address: i32,
) -> bool {
    &&& after.instances@.len() > 0
    &&& after.instances@.last().language_id == language.language_id
    &&& is_wired(after.instances@.last(), after.bytes(), after.entries(), address as int)
    &&& language_function_returned(
        after.instances@.last().instance,
        language.name@,
        after.held(),
        address,
    )
}

/// A language that is added to a store is recorded by what stands in that store:
/// behind the records that there were, wired by the language object at the
/// address that its language function returned there.
pub proof fn added_languages_are_recorded_as_they_stand(
    before: StoreInner,
    language: WasmLanguage,
    after: StoreInner,
)
    requires
        language_added(before, language, after),
    ensures
        after.instances@.len() == before.instances@.len() + 1,
        forall|i: int|
            0 <= i < before.instances@.len() ==> #[trigger] after.instances@[i]
                == before.instances@[i],
        exists|address: i32|
            {
                &&& 0 <= address
                &&& address + 168 <= after.bytes().len()
                &&& #[trigger] last_record_is_of(after, language, address)
            },
{
    let (instance, address) = choose|instance: wasmtime::Instance, address: i32|
        {
            let addresses = instance_addresses(
                language_at(after.bytes(), address as int),
            );
            &&& #[trigger] module_instantiated(
                before,
                language.module,
                language.name@,
                language.dylink_info,
                after.held(),
                instance,
                address,
            )
            &&& in_memory(
                after.bytes(),
                address as int,
                LANGUAGE_SIZE as int,
            )
            &&& missing_entry(after.entries(), addresses) is None
            &&& after.instances@ == before.instances@.push(
                instance_record(after.entries(), instance, language.language_id, addresses),
            )
        };
    records_are_wired(after.bytes(), after.entries(), address, after.instances@.last());
    languages_stand_where_their_function_says(
        before,
        language.module,
        language.name@,
        language.dylink_info,
        after.held(),
        instance,
        address,
    );
    assert(last_record_is_of(after, language, address));
}

/// A loaded language is recorded in the same way, and is a copy of the language
/// object at that address, but for the mark that its code is Wasm.
pub proof fn loaded_languages_are_recorded_as_they_stand(
    before: StoreInner,
    language_name: Seq<char>,
    wasm: Seq<u8>,
    after: StoreInner,
    language: WasmLanguage,
)
    requires
        language_loaded(before, language_name, wasm, after, language),
    ensures
        language.name@ == language_name,
        exists|address: i32, output: CopyOutput|
            {
                &&& #[trigger] last_record_is_of(after, language, address)
                &&& #[trigger] copies_out(
                    after.bytes(),
                    address,
                    after.current_memory_offset,
                    Ok(output),
                )
                &&& language.language == (CLanguage {
                    lex_fn: Some(LexFn::Sentinel),
                    keyword_lex_fn: None,
                    ..output.language
                })
            },
{
    let (instance, address, output) = choose|
        instance: wasmtime::Instance,
        address: i32,
        output: CopyOutput,
    |
        #[trigger] language_recorded(before, language, after, instance, address, output);
    let record = instance_record(
        after.entries(),
        instance,
        language.language_id,
        output.addresses,
    );
    let (deleted, kept) = choose|deleted: Seq<bool>, kept: Seq<LanguageWasmInstance>|
        #[trigger] cleared(before, deleted, kept, after.current_instance)
            && after.instances@ == kept.push(record);
    assert(after.instances@.last() == record);
    records_are_wired(after.bytes(), after.entries(), address, record);
    languages_stand_where_their_function_says(
        before,
        language.module,
        language.name@,
        language.dylink_info,
        after.held(),
        instance,
        address,
    );
    assert(last_record_is_of(after, language, address));
}

/// Whether the same language object stands at two places.
pub open spec fn same_object(one: Seq<u8>, at: int, other: Seq<u8>, to: int) -> bool {
    forall|i: int| 0 <= i < 168 ==> #[trigger] one[at + i] == other[to + i]
}

/// A language is recorded in the store that it is loaded in as in one that it is
/// added to: each record is wired by the language object in its own store. Where
/// the objects are the same, the tables of valid tokens stand at the same place.
pub proof fn loading_and_adding_agree(
    before: StoreInner,
    language_name: Seq<char>,
    wasm: Seq<u8>,
    loaded: StoreInner,
    language: WasmLanguage,
    other: StoreInner,
    added: StoreInner,
)
    requires
        language_loaded(before, language_name, wasm, loaded, language),
        language_added(other, language, added),
    ensures
        exists|at: i32, to: i32|
            {
                &&& #[trigger] last_record_is_of(loaded, language, at)
                &&& #[trigger] last_record_is_of(added, language, to)
                &&& same_object(loaded.bytes(), at as int, added.bytes(), to as int) ==> {
                    loaded.instances@.last().external_states_address
                        == added.instances@.last().external_states_address
                }
            },
{
    loaded_languages_are_recorded_as_they_stand(before, language_name, wasm, loaded, language);
    added_languages_are_recorded_as_they_stand(other, language, added);
    let (at, output) = choose|at: i32, output: CopyOutput|
        {
            &&& #[trigger] last_record_is_of(loaded, language, at)
            &&& #[trigger] copies_out(
                loaded.bytes(),
                at,
                loaded.current_memory_offset,
                Ok(output),
            )
        };
    let to = choose|to: i32| #[trigger] last_record_is_of(added, language, to);
    if same_object(loaded.bytes(), at as int, added.bytes(), to as int) {
        same_objects_say_the_same(loaded.bytes(), at as int, added.bytes(), to as int, 104);
    }
    assert(last_record_is_of(loaded, language, at));
    assert(last_record_is_of(added, language, to));
}

/// What stands at a place of a language object stands there wherever it does.
proof fn same_objects_say_the_same(
    one: Seq<u8>,
    at: int,
    other: Seq<u8>,
    to: int,
    inside: int,
)
    requires
        same_object(one, at, other, to),
        0 <= inside,
        inside + 4 <= 168,
    ensures
        pointer(one, at + inside) == pointer(other, to + inside),
{
    assert(one[at + inside] == other[to + inside]);
    assert(one[at + (inside + 1)] == other[to + (inside + 1)]);
    assert(one[at + (inside + 2)] == other[to + (inside + 2)]);
    assert(one[at + (inside + 3)] == other[to + (inside + 3)]);
}

/// The names under which a store provides something differ.
proof fn provided_names_differ()
    ensures
        "__memory_base"@ != "__table_base"@,
        "__memory_base"@ != "__assert_fail"@,
        "__table_base"@ != "__cxa_atexit"@,
        "__indirect_function_table"@ != "tree_sitter_debug_message"@,
        "__memory_base"@.len() == 13,
        "__table_base"@.len() == 12,
        "__stack_pointer"@.len() == 15,
        "__indirect_function_table"@.len() == 25,
        "memory"@.len() == 6,
        "__assert_fail"@.len() == 13,
        "__cxa_atexit"@.len() == 12,
        "args_get"@.len() == 8,
        "args_sizes_get"@.len() == 14,
        "abort"@.len() == 5,
        "proc_exit"@.len() == 9,
        "emscripten_notify_memory_growth"@.len() == 31,
        "tree_sitter_debug_message"@.len() == 25,
{
    reveal_strlit("__memory_base");
    reveal_strlit("__table_base");
    reveal_strlit("__stack_pointer");
    reveal_strlit("__indirect_function_table");
    reveal_strlit("memory");
    reveal_strlit("__assert_fail");
    reveal_strlit("__cxa_atexit");
    reveal_strlit("args_get");
    reveal_strlit("args_sizes_get");
    reveal_strlit("abort");
    reveal_strlit("proc_exit");
    reveal_strlit("emscripten_notify_memory_growth");
    reveal_strlit("tree_sitter_debug_message");
    assert("__memory_base"@[2] == 'm');
    assert("__assert_fail"@[2] == 'a');
    assert("__table_base"@[2] == 't');
    assert("__cxa_atexit"@[2] == 'c');
    assert("__indirect_function_table"@[0] == '_');
    assert("tree_sitter_debug_message"@[0] == 't');
}

/// Whether `import` is a new constant: it was not there before.
pub open spec fn is_fresh_number(
    before: StoreContents,
    ready: StoreContents,
    import: Import,
    number: int,
) -> bool {
    import matches Import::Global(global) && !before.globals.contains_key(global)
        && ready.globals.contains_key(global) && exists|value: i32|
        value == number && #[trigger] is_number(ready.globals[global], value)
}

/// Whether a global is a constant.
pub open spec fn is_number(kind: GlobalKind, value: i32) -> bool {
    kind == GlobalKind::Constant(value)
}

/// Whether `import` runs a host function, which takes and returns so many
/// numbers.
pub open spec fn runs(
    ready: StoreContents,
    import: Import,
    callback: HostCallback,
    params: nat,
    results: nat,
) -> bool {
    import matches Import::Func(func) && ready.funcs.contains_key(func) && ready.funcs[func]
        == FuncKind::Host(callback, params, results)
}

/// Whether a module of a store is given `import` under `name`: under the two
/// bases, new constants that say where its data and its table entries are placed;
/// the stack pointer, the function table and the memory that all modules share;
/// and host functions that abort, do nothing, or print.
pub open spec fn is_given(
    store: StoreInner,
    ready: StoreContents,
    name: Seq<char>,
    import: Import,
) -> bool {
    &&& name == "__memory_base"@ ==> is_fresh_number(
        store.held(),
        ready,
        import,
        signed(store.current_memory_offset as int),
    )
    &&& name == "__table_base"@ ==> is_fresh_number(
        store.held(),
        ready,
        import,
        signed(store.current_function_table_offset as int),
    )
    &&& name == "__stack_pointer"@ ==> import == Import::Global(store.stack_pointer_global)
    &&& name == "__indirect_function_table"@ ==> import == Import::Table(store.table)
    &&& name == "memory"@ ==> import == Import::Memory(store.memory)
    &&& name == "abort"@ ==> runs(ready, import, HostCallback::Abort, 0, 0)
    &&& name == "proc_exit"@ ==> runs(ready, import, HostCallback::Abort, 1, 0)
    &&& name == "__assert_fail"@ ==> runs(ready, import, HostCallback::Abort, 4, 0)
    &&& name == "__cxa_atexit"@ ==> runs(ready, import, HostCallback::Noop, 3, 1)
    &&& name == "args_get"@ ==> runs(ready, import, HostCallback::Noop, 2, 1)
    &&& name == "args_sizes_get"@ ==> runs(ready, import, HostCallback::Noop, 2, 1)
    &&& name == "emscripten_notify_memory_growth"@ ==> runs(
        ready,
        import,
        HostCallback::Noop,
        1,
        0,
    )
    &&& name == "tree_sitter_debug_message"@ ==> runs(
        ready,
        import,
        HostCallback::DebugMessage,
        2,
        0,
    )
}

/// Whether a store gives modules something of its own under `name`.
pub open spec fn is_given_by_the_store(name: Seq<char>) -> bool {
    ||| name == "__memory_base"@
    ||| name == "__table_base"@
    ||| name == "__stack_pointer"@
    ||| name == "__indirect_function_table"@
    ||| name == "memory"@
    ||| name == "abort"@
    ||| name == "proc_exit"@
    ||| name == "__assert_fail"@
    ||| name == "__cxa_atexit"@
    ||| name == "args_get"@
    ||| name == "args_sizes_get"@
    ||| name == "emscripten_notify_memory_growth"@
    ||| name == "tree_sitter_debug_message"@
}

/// Under each name a store provides one thing, and under no other name anything.
pub proof fn stores_provide_what_the_names_say(
    store: StoreInner,
    ready: StoreContents,
    name: Seq<char>,
    import: Import,
)
    requires
        store.linked(),
        store.held().grows_to(ready),
    ensures
        is_builtin(name) <==> is_given_by_the_store(name),
        provides(store, ready, name, import) ==> is_given(store, ready, name, import),
{
    provided_names_differ();
    cast_is_signed(store.current_memory_offset);
    cast_is_signed(store.current_function_table_offset);
    if provides(store, ready, name, import) {
        if let Import::Global(global) = import {
            if let GlobalKind::Constant(value) = ready.globals[global] {
                assert(is_number(ready.globals[global], value));
            }
        }
        let host = store.builtin_fns;
        assert(store.held().funcs.contains_key(host.abort));
        assert(store.held().funcs.contains_key(host.proc_exit));
        assert(store.held().funcs.contains_key(host.assert_fail));
        assert(store.held().funcs.contains_key(host.at_exit));
        assert(store.held().funcs.contains_key(host.args_get));
        assert(store.held().funcs.contains_key(host.args_sizes_get));
        assert(store.held().funcs.contains_key(host.notify_memory_growth));
        assert(store.held().funcs.contains_key(host.debug_message));
    }
}

/// Whether a grammar module is given `import` under `name`: what the store gives,
/// else the function of the first symbol of the stdlib with that name.
pub open spec fn grammar_is_given(
    store: StoreInner,
    ready: StoreContents,
    name: Seq<char>,
    import: Import,
) -> bool {
    &&& is_given(store, ready, name, import)
    &&& !is_given_by_the_store(name) ==> exists|k: int|
        {
            &&& 0 <= k < store.stdlib_symbols@.len()
            &&& (#[trigger] store.stdlib_symbols@[k])@ == name
            &&& store.stdlib_fns@[k] matches Some(func) && import == Import::Func(func)
            &&& forall|i: int| 0 <= i < k ==> (#[trigger] store.stdlib_symbols@[i])@ != name
        }
}

/// A grammar module that is instantiated is given, for each name that it imports
/// and in their order, what the store or the stdlib has under that name. It is
/// placed where the store's offsets say.
pub proof fn grammar_modules_are_given_what_they_import(
    before: StoreInner,
    module: wasmtime::Module,
    info: DylinkInfo,
    after: StoreContents,
    instance: wasmtime::Instance,
)
    requires
        before.wf(),
        module_linked(before, module, info, after, instance),
    ensures
        exists|room: StoreInner, ready: StoreContents, imports: Seq<Import>|
            {
                &&& room_made(before, info, room)
                &&& #[trigger] instantiation_leads_to(
                    ready,
                    module,
                    imports,
                    Ok(instance),
                    after,
                )
                &&& #[trigger] given_in_order(room, ready, module, imports)
            },
{
    let wanted = wasm_imports(module_source(module));
    let (room, ready, imports) = choose|
        room: StoreInner,
        ready: StoreContents,
        imports: Seq<Import>,
    |
        {
            &&& room_made(before, info, room)
            &&& all_known(texts(before.stdlib_symbols@), wanted)
            &&& adds_globals(room.held(), ready)
            &&& #[trigger] all_supplied(room, ready, wanted, imports)
            &&& if module_engine(module) == before.engine {
                instantiation_leads_to(ready, module, imports, Ok(instance), after)
            } else {
                false
            }
        };
    room_keeps_what_is_linked(before, info, room);
    assert forall|i: int| 0 <= i < imports.len() implies grammar_is_given(
        room,
        ready,
        (#[trigger] wanted[i]).0,
        imports[i],
    ) by {
        let name = wanted[i].0;
        assert(ready.owns(imports[i]));
        assert(supplies(room, ready, name, imports[i]));
        stores_provide_what_the_names_say(room, ready, name, imports[i]);
        if !is_builtin(name) {
            let index = choose|index: usize|
                #[trigger] is_position(texts(room.stdlib_symbols@), name, Some(index))
                    && imports[i] == Import::Func(room.stdlib_fns@[index as int]->0);
            assert(texts(room.stdlib_symbols@)[index as int]
                == room.stdlib_symbols@[index as int]@);
            assert(room.stdlib_fns@[index as int] is Some);
            assert forall|k: int| 0 <= k < index implies (#[trigger] room.stdlib_symbols@[k])@
                != name by {
                assert(texts(room.stdlib_symbols@)[k] != name);
            }
        }
    }
    assert(given_in_order(room, ready, module, imports));
}

/// Whether a grammar module is given `imports`, one for each name that it imports.
pub open spec fn given_in_order(
    room: StoreInner,
    ready: StoreContents,
    module: wasmtime::Module,
    imports: Seq<Import>,
) -> bool {
    let wanted = wasm_imports(module_source(module));
    &&& imports.len() == wanted.len()
    &&& forall|i: int|
        0 <= i < imports.len() ==> grammar_is_given(
            room,
            ready,
            (#[trigger] wanted[i]).0,
            imports[i],
        )
}

/// A store with room for a module is as linked as before.
proof fn room_keeps_what_is_linked(before: StoreInner, info: DylinkInfo, room: StoreInner)
    requires
        before.wf(),
        room_made(before, info, room),
    ensures
        room.wf(),
        room.current_memory_offset == before.current_memory_offset,
        room.current_function_table_offset == before.current_function_table_offset,
{
    running_keeps_the_store_usable(before, room);
}

/// Making room for a module adds its entries to the function table, all empty,
/// and no more pages of zeros to the memory than it takes for the module's data
/// and the serialization buffer behind it. What there was stays.
pub proof fn room_is_what_a_module_asks_for(
    before: StoreInner,
    info: DylinkInfo,
    room: StoreInner,
)
    requires
        before.wf(),
        room_made(before, info, room),
    ensures
        room.entries().len() == before.entries().len() + info.table_size,
        forall|i: int|
            0 <= i < room.entries().len() ==> #[trigger] room.entries()[i] == if i
                < before.entries().len() {
                before.entries()[i]
            } else {
                None
            },
        before.current_memory_offset + info.memory_size + 1024 <= room.bytes().len(),
        room.bytes().len() >= before.bytes().len(),
        (room.bytes().len() - before.bytes().len()) % 65536 == 0,
        room.bytes().len() > before.bytes().len() ==> room.bytes().len() - 65536
            < before.current_memory_offset + info.memory_size + 1024,
        forall|i: int|
            0 <= i < room.bytes().len() ==> #[trigger] room.bytes()[i] == if i
                < before.bytes().len() {
                before.bytes()[i]
            } else {
                0
            },
        before.current_function_table_offset + info.table_size <= room.entries().len(),
{
    let needed = before.current_memory_offset + 1024 + info.memory_size;
    let lacking = needed - before.bytes().len();
    if lacking > 0 {
        let pages = (lacking + 65535) / 65536;
        assert(pages > 0);
        assert((pages * 65536) % 65536 == 0) by (nonlinear_arith);
    }
}

/// The offsets move on by what the module asked for: the next one is placed right
/// behind.
pub proof fn offsets_move_on_by_what_was_asked_for(
    before: StoreInner,
    language_name: Seq<char>,
    wasm: Seq<u8>,
    after: StoreInner,
    language: WasmLanguage,
)
    requires
        before.wf(),
        after.wf(),
        language_loaded(before, language_name, wasm, after, language),
    ensures
        dylink_info(wasm) == Some(language.dylink_info),
        after.current_memory_offset == before.current_memory_offset
            + language.dylink_info.memory_size,
        after.current_function_table_offset == before.current_function_table_offset
            + language.dylink_info.table_size,
        after.current_memory_offset + 1024 <= after.bytes().len(),
        before.lexer_address + 28 <= before.current_memory_offset,
        after.has_error == before.has_error,
        after.stdlib_fns == before.stdlib_fns,
        after.builtin_fns == before.builtin_fns,
        after.stack_pointer_global == before.stack_pointer_global,
        after.memory == before.memory,
        after.table == before.table,
        after.lexer_address == before.lexer_address,
{
    modules_are_placed_one_behind_the_other(before, language_name, wasm, after, language);
}

/// A module is refused as unparsable exactly where it has no memory information,
/// as not compiled only where the runtime refuses it, and else as not
/// instantiated.
pub proof fn refused_languages_have_their_kind(
    before: StoreInner,
    language_name: Seq<char>,
    wasm: Seq<u8>,
    after: StoreContents,
    failure: (u32, String),
)
    requires
        load_refused(before, language_name, wasm, after, failure),
    ensures
        failure.0 == 1 <==> dylink_info(wasm) is None,
        failure.0 == 1 ==> failure.1@ == "failed to parse dylink section of Wasm module"@,
        failure.0 == 2 ==> exists|text: Seq<char>|
            #[trigger] compilation_refused(wasm, text) && failure.1@
                == "error compiling Wasm module: "@ + text,
        1 <= failure.0 <= 3,
{
}

} // verus!
