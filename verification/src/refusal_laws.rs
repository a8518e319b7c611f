//! How a grammar module is started, and why it is refused.

use vstd::prelude::*;

use crate::bridge::adds_globals;
use crate::call_laws::{one_number, Outcome};
use crate::callback_laws::{decimals_read_as_the_number, reads_as};
use crate::copy_out::{copies_out, CopyOutput};
use crate::dylink::{dylink_info, DylinkInfo};
use crate::engine::StoreInner;
use crate::layout::language_at;
use crate::load::{language_refused, load_failed, load_refused, placed_load_refused};
use crate::load_laws::{is_given_by_the_store, stores_provide_what_the_names_say};
use crate::module::{
    all_known, all_supplied, exported_func, import_failure, import_refused, imports_refused,
    initializer_failed, initializers_ran, initializes, instantiation_ended, language_call_failure,
    language_found, language_function_name, language_missed, link_refused, listed, memory_is_full,
    module_instantiated, module_linked, module_refused, pages_for, room_made, room_refused,
    with_entries,
};
use crate::record_laws::{is_first_without_entry, names_number, refused_records_name_an_entry};
use crate::records::record_refused;
use crate::runtime::{
    call_leads_to, compilation_refused, instantiation_leads_to, memory_growth_refused,
    module_engine, module_source, table_growth_refused, wasm_exports, wasm_imports, Export, Import,
    StoreContents,
};
use crate::setup_laws::{
    call_failed, exports_function, failed_initializers_failed, fails, initializers_run_in_order,
    instantiation_failed, is_for_the_start, was_initialized,
};
use crate::text::{decimal, texts};

verus! {

/// Whether the language function of an instance, which its module exports under
/// `tree_sitter_` and the name of the language, was called without arguments once
/// the instance was initialized, and returned `address`.
pub open spec fn language_was_asked_for(
    module: wasmtime::Module,
    language_name: Seq<char>,
    instance: wasmtime::Instance,
    instantiated: StoreContents,
    initialized: StoreContents,
    func: wasmtime::Func,
    address: i32,
    after: StoreContents,
) -> bool {
    let names = wasm_exports(module_source(module));
    let exports = instantiated.instances[instance];
    let name = "tree_sitter_"@ + language_name;
    &&& was_initialized(exports, names, instantiated, initialized)
    &&& names.contains(name)
    &&& exports.contains_key(name)
    &&& exports[name] == Export::Func(func)
    &&& call_leads_to(initialized, func, seq![], 1, Ok(seq![Some(address)]), after)
}

/// A grammar module is linked, then initialized, and then asked for its language,
/// in this order, and nothing else runs.
pub proof fn grammars_are_initialized_before_they_are_asked(
    before: StoreInner,
    module: wasmtime::Module,
    language_name: Seq<char>,
    info: DylinkInfo,
    after: StoreContents,
    instance: wasmtime::Instance,
    address: i32,
)
    requires
        module_instantiated(before, module, language_name, info, after, instance, address),
    ensures
        exists|instantiated: StoreContents, initialized: StoreContents, func: wasmtime::Func|
            {
                &&& module_linked(before, module, info, instantiated, instance)
                &&& #[trigger] language_was_asked_for(
                    module,
                    language_name,
                    instance,
                    instantiated,
                    initialized,
                    func,
                    address,
                    after,
                )
            },
{
    let names = wasm_exports(module_source(module));
    let name = language_function_name(language_name);
    let instantiated = choose|instantiated: StoreContents|
        #[trigger] module_linked(before, module, info, instantiated, instance) && language_found(
            instantiated.instances[instance],
            names,
            name,
            instantiated,
            after,
            address,
        );
    let exports = instantiated.instances[instance];
    let func = exported_func(exports, names, names.len() as int, name)->0;
    let initialized = choose|initialized: StoreContents|
        #[trigger] initializers_ran(exports, names, names.len(), instantiated, initialized)
            && call_leads_to(initialized, func, seq![], 1, Ok(seq![Some(address)]), after);
    initializers_run_in_order(exports, names, instantiated, initialized);
    assert(language_was_asked_for(
        module,
        language_name,
        instance,
        instantiated,
        initialized,
        func,
        address,
        after,
    ));
}

/// Whether a name is the first one that a module imports under which it cannot
/// have anything.
pub open spec fn cannot_be_had(store: StoreInner, wasm: Seq<u8>, name: Seq<char>) -> bool {
    let wanted = wasm_imports(wasm);
    &&& !is_known(store, name)
    &&& exists|i: int|
        {
            &&& 0 <= i < wanted.len()
            &&& (#[trigger] wanted[i]).0 == name
            &&& forall|k: int| 0 <= k < i ==> is_known(store, (#[trigger] wanted[k]).0)
        }
}

/// Whether a grammar module can have something under a name: the name is not
/// empty, and the store has something under it, or else the stdlib.
pub open spec fn is_known(store: StoreInner, name: Seq<char>) -> bool {
    &&& name.len() > 0
    &&& is_given_by_the_store(name) || exists|k: int|
        0 <= k < store.stdlib_symbols@.len() && (#[trigger] store.stdlib_symbols@[k])@ == name
}

/// Whether a module is refused as not instantiated for want of room, of an
/// import, or of a function, or for what the runtime says.
pub open spec fn is_module_refusal(
    store: StoreInner,
    language_name: Seq<char>,
    wasm: Seq<u8>,
    info: DylinkInfo,
    message: Seq<char>,
    detail: Seq<char>,
) -> bool {
    let name = "tree_sitter_"@ + language_name;
    ||| message == "invalid function table size "@ + detail && reads_as(
        detail,
        info.table_size as int,
    )
    ||| message == "invalid memory size "@ + detail && reads_as(detail, info.memory_size as int)
    ||| message == "empty import name"@ && cannot_be_had(store, wasm, Seq::empty())
    ||| {
        &&& message == "invalid import '"@ + detail + "'\n"@
        &&& detail.len() > 0
        &&& cannot_be_had(store, wasm, detail)
    }
    ||| {
        &&& message == "error instantiating Wasm module: "@ + detail + "\n"@
        &&& instantiation_failed(wasm, detail)
    }
    ||| {
        &&& message == "trap when calling data relocation function: "@ + detail + "\n"@
        &&& call_failed(0, detail)
    }
    ||| {
        &&& message == "module did not contain language function: "@ + name
        &&& is_for_the_start(name) || exists|exports: Map<Seq<char>, Export>|
            !#[trigger] exports_function(wasm_exports(wasm), exports, name)
    }
    ||| {
        &&& message == "language function did not return an integer: "@ + name + "\n"@
        &&& exists|values: Seq<Option<i32>>|
            one_number(Ok(values)) is None && #[trigger] can_be_returned(values)
    }
    ||| {
        &&& message == "trapped when calling language function: "@ + name + ": "@ + (detail
            + "\n"@)
        &&& call_failed(1, detail)
    }
}

/// Whether a call without arguments for one result can return these.
pub open spec fn can_be_returned(values: Seq<Option<i32>>) -> bool {
    exists|before: StoreContents, func: wasmtime::Func, after: StoreContents|
        #[trigger] gives_back(before, func, values, after)
}

/// Whether a call of a function without arguments gives these back.
pub open spec fn gives_back(
    before: StoreContents,
    func: wasmtime::Func,
    values: Seq<Option<i32>>,
    after: StoreContents,
) -> bool {
    call_leads_to(before, func, seq![], 1, Ok(values), after)
}

/// Whether the language of a module is refused: its data lies outside of the
/// memory, its version is another one, its name cannot be kept, or it names a
/// function that there is not.
pub open spec fn is_language_refusal(
    bytes: Seq<u8>,
    entries: Seq<Option<wasmtime::Func>>,
    language_name: Seq<char>,
    message: Seq<char>,
    detail: Seq<char>,
) -> bool {
    ||| message == "invalid language memory address"@
    ||| exists|number: int|
        {
            &&& #[trigger] reads_as(detail, number)
            &&& !(13 <= number <= 15)
            &&& message == "incompatible language ABI version "@ + detail + "; expected between "@
                + seq!['1', '3'] + " and "@ + seq!['1', '5']
        }
    ||| message == "invalid language name: embedded NUL byte"@ && language_name.contains('\0')
    ||| exists|address: int, number: int|
        {
            &&& #[trigger] is_first_without_entry(bytes, address, entries.len() as int, number)
            &&& names_number(detail, number)
            &&& message == "invalid function table entry "@ + detail
        }
}

/// A module is refused room only where there is none: where its table entries or
/// its data, and the serialization buffer behind it, would not fit into what 32
/// bits count, or where the runtime refuses to grow the table or the memory by
/// what is lacking.
pub proof fn room_is_refused_only_where_there_is_none(
    before: StoreInner,
    info: DylinkInfo,
    after: StoreContents,
    kind: u32,
    message: Seq<char>,
)
    requires
        room_refused(before, info, after, kind, message),
    ensures
        kind == 3,
        ({
            let entries = before.current_function_table_offset + info.table_size;
            let needed = before.current_memory_offset + info.memory_size + 1024;
            let size = before.bytes().len();
            ||| entries > 4294967295
            ||| exists|text: Seq<char>|
                #[trigger] table_growth_refused(
                    before.held(),
                    before.table,
                    info.table_size as u64,
                    text,
                ) && info.table_size > 0
            ||| needed > 4294967295
            ||| exists|pages: u64, ready: StoreContents|
                {
                    &&& #[trigger] memory_growth_refused(ready, before.memory, pages)
                    &&& size < needed <= size + 65536 * pages < needed + 65536
                    &&& ready.memories == before.held().memories
                }
        }),
{
    let needed = before.current_memory_offset + info.memory_size + 1024;
    let size = before.bytes().len();
    if memory_is_full(before, info) && needed <= 4294967295 {
        let pages = pages_for(needed - size);
        assert(memory_growth_refused(
            with_entries(before, info),
            before.memory,
            pages as u64,
        ));
        assert(needed - size <= 65536 * pages < needed - size + 65536);
    }
}

/// A language that cannot be loaded leaves the records and the offsets of a store
/// alone, and sets no error.
pub proof fn refused_languages_leave_the_store_alone(
    before: StoreInner,
    language_name: Seq<char>,
    wasm: Seq<u8>,
    after: StoreInner,
    failure: (u32, String),
)
    requires
        load_failed(before, language_name, wasm, after, failure),
    ensures
        after.instances == before.instances,
        after.current_instance == before.current_instance,
        after.current_memory_offset == before.current_memory_offset,
        after.current_function_table_offset == before.current_function_table_offset,
        after.has_error == before.has_error,
        after == (StoreInner { store: after.store, ..before }),
        load_refused(before, language_name, wasm, after.held(), failure),
{
}

/// A language that is refused is refused for one of these reasons, of the kind
/// that goes with it: one where there is no memory information, two where the
/// module is not compiled, and else three.
pub proof fn refused_languages_are_told_why(
    before: StoreInner,
    language_name: Seq<char>,
    wasm: Seq<u8>,
    after: StoreContents,
    failure: (u32, String),
)
    requires
        before.wf(),
        load_refused(before, language_name, wasm, after, failure),
    ensures
        match dylink_info(wasm) {
            None => failure.0 == 1 && failure.1@
                == "failed to parse dylink section of Wasm module"@,
            Some(info) => {
                ||| failure.0 == 2 && exists|text: Seq<char>|
                    #[trigger] compilation_refused(wasm, text) && failure.1@
                        == "error compiling Wasm module: "@ + text
                ||| failure.0 == 3 && exists|detail: Seq<char>|
                    #[trigger] is_module_refusal(
                        before,
                        language_name,
                        wasm,
                        info,
                        failure.1@,
                        detail,
                    )
                ||| failure.0 == 3 && exists|detail: Seq<char>|
                    #[trigger] is_language_refusal(
                        after.memories[before.memory],
                        after.tables[before.table],
                        language_name,
                        failure.1@,
                        detail,
                    )
            },
        },
{
    if let Some(info) = dylink_info(wasm) {
        assert(placed_load_refused(before, language_name, wasm, info, after, failure));
        if exists|module: wasmtime::Module|
            module_source(module) == wasm && module_engine(module) == before.engine
                && #[trigger] module_refused(
                before,
                module,
                language_name,
                info,
                after,
                failure.0,
                failure.1@,
            ) {
            let module = choose|module: wasmtime::Module|
                module_source(module) == wasm && module_engine(module) == before.engine
                    && #[trigger] module_refused(
                    before,
                    module,
                    language_name,
                    info,
                    after,
                    failure.0,
                    failure.1@,
                );
            refused_modules_are_told_why(
                before,
                module,
                language_name,
                info,
                after,
                failure.0,
                failure.1@,
            );
        } else if exists|
            module: wasmtime::Module,
            instance: wasmtime::Instance,
            address: i32,
            placed: StoreInner,
        |
            {
                &&& #[trigger] module_instantiated(
                    before,
                    module,
                    language_name,
                    info,
                    after,
                    instance,
                    address,
                )
                &&& placed == (StoreInner {
                    store: placed.store,
                    current_memory_offset: placed.current_memory_offset,
                    current_function_table_offset: placed.current_function_table_offset,
                    ..before
                })
                &&& placed.held() == after
                &&& #[trigger] language_refused(placed, language_name, address, failure)
            } {
            let (module, instance, address, placed) = choose|
                module: wasmtime::Module,
                instance: wasmtime::Instance,
                address: i32,
                placed: StoreInner,
            |
                {
                    &&& #[trigger] module_instantiated(
                        before,
                        module,
                        language_name,
                        info,
                        after,
                        instance,
                        address,
                    )
                    &&& placed == (StoreInner {
                        store: placed.store,
                        current_memory_offset: placed.current_memory_offset,
                        current_function_table_offset: placed.current_function_table_offset,
                        ..before
                    })
                    &&& placed.held() == after
                    &&& #[trigger] language_refused(placed, language_name, address, failure)
                };
            languages_in_memory_are_told_why(placed, language_name, address, failure);
        }
    }
}

/// A module that is not instantiated is refused for one of these reasons.
proof fn refused_modules_are_told_why(
    before: StoreInner,
    module: wasmtime::Module,
    language_name: Seq<char>,
    info: DylinkInfo,
    after: StoreContents,
    kind: u32,
    message: Seq<char>,
)
    requires
        before.wf(),
        module_engine(module) == before.engine,
        module_refused(before, module, language_name, info, after, kind, message),
    ensures
        kind == 3,
        exists|detail: Seq<char>|
            #[trigger] is_module_refusal(
                before,
                language_name,
                module_source(module),
                info,
                message,
                detail,
            ),
{
    let wasm = module_source(module);
    if link_refused(before, module, info, after, kind, message) {
        if room_refused(before, info, after, kind, message) {
            decimals_read_as_the_number(info.table_size as nat);
            decimals_read_as_the_number(info.memory_size as nat);
            let table = decimal(info.table_size as nat);
            let memory = decimal(info.memory_size as nat);
            assert(is_module_refusal(before, language_name, wasm, info, message, table)
                || is_module_refusal(before, language_name, wasm, info, message, memory));
        } else if imports_refused(before, module, info, after, kind, message) {
            refused_imports_are_told_why(before, language_name, wasm, info, kind, message);
        } else {
            let text = choose|text: Seq<char>|
                #[trigger] instantiation_ended(before, module, info, Err(text), after) && message
                    == "error instantiating Wasm module: "@ + text + "\n"@;
            failed_instantiations_failed(before, module, info, text, after);
            assert(is_module_refusal(before, language_name, wasm, info, message, text));
        }
    } else {
        let (instance, instantiated) = choose|
            instance: wasmtime::Instance,
            instantiated: StoreContents,
        |
            #[trigger] module_linked(before, module, info, instantiated, instance)
                && language_missed(
                instantiated.instances[instance],
                wasm_exports(wasm),
                language_function_name(language_name),
                instantiated,
                after,
                kind,
                message,
            );
        missed_languages_are_told_why(
            before,
            language_name,
            wasm,
            info,
            instantiated.instances[instance],
            instantiated,
            after,
            kind,
            message,
        );
    }
}

/// Where a module of the store's engine is not instantiated, the runtime refuses
/// to.
proof fn failed_instantiations_failed(
    before: StoreInner,
    module: wasmtime::Module,
    info: DylinkInfo,
    text: Seq<char>,
    after: StoreContents,
)
    requires
        module_engine(module) == before.engine,
        instantiation_ended(before, module, info, Err(text), after),
    ensures
        instantiation_failed(module_source(module), text),
{
    let wanted = wasm_imports(module_source(module));
    let (room, ready, imports) = choose|
        room: StoreInner,
        ready: StoreContents,
        imports: Seq<Import>,
    |
        {
            &&& room_made(before, info, room)
            &&& all_known(texts(before.stdlib_symbols@), wanted)
            &&& adds_globals(room.held(), ready)
            &&& #[trigger] all_supplied(room, ready, wanted, imports)
            &&& if module_engine(module) == before.engine {
                instantiation_leads_to(ready, module, imports, Err(text), after)
            } else {
                false
            }
        };
    assert(instantiation_leads_to(ready, module, imports, Err(text), after));
}

/// What a language function returned is a language just where it is one integer.
pub proof fn one_integer_is_a_language(function_name: Seq<char>, outcome: Outcome)
    ensures
        language_call_failure(function_name, outcome) is None <==> one_number(outcome) is Some,
{
}

/// A grammar module can have an import just where it is known.
pub proof fn known_names_do_not_fail(store: StoreInner, name: Seq<char>)
    requires
        store.wf(),
    ensures
        import_failure(texts(store.stdlib_symbols@), name) is None <==> is_known(store, name),
{
    let symbols = texts(store.stdlib_symbols@);
    stores_provide_what_the_names_say(store, store.held(), name, Import::Memory(store.memory));
    if symbols.contains(name) {
        let k = choose|k: int| 0 <= k < symbols.len() && symbols[k] == name;
        assert(store.stdlib_symbols@[k]@ == name);
    }
    if exists|k: int|
        0 <= k < store.stdlib_symbols@.len() && (#[trigger] store.stdlib_symbols@[k])@ == name {
        let k = choose|k: int|
            0 <= k < store.stdlib_symbols@.len() && (#[trigger] store.stdlib_symbols@[k])@
                == name;
        assert(symbols[k] == name);
    }
}

/// An import that there is none of is named.
proof fn refused_imports_are_told_why(
    before: StoreInner,
    language_name: Seq<char>,
    wasm: Seq<u8>,
    info: DylinkInfo,
    kind: u32,
    message: Seq<char>,
)
    requires
        before.wf(),
        import_refused(texts(before.stdlib_symbols@), wasm_imports(wasm), kind, message),
    ensures
        kind == 3,
        exists|detail: Seq<char>|
            #[trigger] is_module_refusal(before, language_name, wasm, info, message, detail),
{
    let symbols = texts(before.stdlib_symbols@);
    let wanted = wasm_imports(wasm);
    let i = choose|i: int|
        {
            &&& 0 <= i < wanted.len()
            &&& import_failure(symbols, (#[trigger] wanted[i]).0) == Some(message)
            &&& forall|k: int|
                0 <= k < i ==> import_failure(symbols, (#[trigger] wanted[k]).0) is None
        };
    let name = wanted[i].0;
    known_names_do_not_fail(before, name);
    assert forall|k: int| 0 <= k < i implies is_known(before, (#[trigger] wanted[k]).0) by {
        known_names_do_not_fail(before, wanted[k].0);
    }
    if name.len() == 0 {
        assert(name =~= Seq::empty());
    }
    assert(cannot_be_had(before, wasm, name));
    assert(is_module_refusal(before, language_name, wasm, info, message, name));
}

/// A language that is not found is refused for one of these reasons.
proof fn missed_languages_are_told_why(
    before: StoreInner,
    language_name: Seq<char>,
    wasm: Seq<u8>,
    info: DylinkInfo,
    exports: Map<Seq<char>, Export>,
    instantiated: StoreContents,
    after: StoreContents,
    kind: u32,
    message: Seq<char>,
)
    requires
        language_missed(
            exports,
            wasm_exports(wasm),
            language_function_name(language_name),
            instantiated,
            after,
            kind,
            message,
        ),
    ensures
        kind == 3,
        exists|detail: Seq<char>|
            #[trigger] is_module_refusal(before, language_name, wasm, info, message, detail),
{
    let names = wasm_exports(wasm);
    let name = language_function_name(language_name);
    if exists|text: Seq<char>|
        #[trigger] initializer_failed(exports, names, instantiated, after, text) && message
            == "trap when calling data relocation function: "@ + text + "\n"@ {
        let text = choose|text: Seq<char>|
            #[trigger] initializer_failed(exports, names, instantiated, after, text) && message
                == "trap when calling data relocation function: "@ + text + "\n"@;
        failed_initializers_failed(exports, names, instantiated, after, text);
        assert(is_module_refusal(before, language_name, wasm, info, message, text));
    } else if (initializes(name) || exported_func(exports, names, names.len() as int, name)
        is None) && message == "module did not contain language function: "@ + name {
        if !initializes(name) {
            assert(!exports_function(names, exports, name)) by {
                if names.contains(name) {
                    let i = choose|i: int| 0 <= i < names.len() && names[i] == name;
                    assert(listed(names, names.len() as int, name));
                }
            }
        }
        assert(is_module_refusal(before, language_name, wasm, info, message, name));
    } else {
        let func = exported_func(exports, names, names.len() as int, name)->0;
        let (initialized, outcome) = choose|
            initialized: StoreContents,
            outcome: Result<Seq<Option<i32>>, Seq<char>>,
        |
            {
                &&& #[trigger] initializers_ran(
                    exports,
                    names,
                    names.len(),
                    instantiated,
                    initialized,
                )
                &&& #[trigger] call_leads_to(initialized, func, seq![], 1, outcome, after)
                &&& language_call_failure(name, outcome) == Some(message)
            };
        let text = match outcome {
            Ok(values) => {
                assert(gives_back(initialized, func, values, after));
                assert(can_be_returned(values));
                name
            },
            Err(text) => {
                assert(fails(initialized, func, 1, text, after));
                text
            },
        };
        assert(is_module_refusal(before, language_name, wasm, info, message, text));
    }
}

/// A language that is refused once its module is instantiated is refused for one
/// of these reasons.
proof fn languages_in_memory_are_told_why(
    placed: StoreInner,
    language_name: Seq<char>,
    address: i32,
    failure: (u32, String),
)
    requires
        language_refused(placed, language_name, address, failure),
    ensures
        failure.0 == 3,
        exists|detail: Seq<char>|
            #[trigger] is_language_refusal(
                placed.bytes(),
                placed.entries(),
                language_name,
                failure.1@,
                detail,
            ),
{
    let bytes = placed.bytes();
    let entries = placed.entries();
    let offset = placed.current_memory_offset;
    let message = failure.1@;
    if copies_out(bytes, address, offset, Err(failure)) {
        let version = language_at(bytes, address as int).abi_version;
        decimals_read_as_the_number(version as nat);
        assert(decimal(1) =~= seq!['1']);
        assert(decimal(13) =~= seq!['1', '3']);
        assert(decimal(15) =~= seq!['1', '5']);
        assert(is_language_refusal(
            bytes,
            entries,
            language_name,
            message,
            decimal(version as nat),
        ));
    } else if language_name.contains('\0') {
        assert(is_language_refusal(bytes, entries, language_name, message, seq![]));
    } else {
        let output = choose|output: CopyOutput|
            {
                &&& #[trigger] copies_out(bytes, address, offset, Ok(output))
                &&& record_refused(entries, output.addresses, failure.0, message)
            };
        refused_records_name_an_entry(bytes, entries, address, failure.0, message);
        let (index, text) = choose|index: i32, text: Seq<char>|
            {
                &&& is_first_without_entry(
                    bytes,
                    address as int,
                    entries.len() as int,
                    index as int,
                )
                &&& message == "invalid function table entry "@ + text
                &&& #[trigger] names_number(text, index as int)
            };
        assert(is_language_refusal(bytes, entries, language_name, message, text));
    }
}

} // verus!
