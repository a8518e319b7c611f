//! Loading languages, and using them in stores that they were not loaded in.

use std::sync::atomic::AtomicU32;
use std::sync::Arc;

use vstd::prelude::*;

use crate::callbacks::state_kept;
use crate::copy_out::{
    copies_out, copy_language_from, instance_addresses, read_instance_addresses, CopyOutput,
};
use crate::dylink::{dylink_info, dylink_info_parse, DylinkInfo};
use crate::engine::{LanguageWasmInstance, StoreInner};
use crate::error::{WasmResult, COMPILE, INSTANTIATE, PARSE};
use crate::language::{CLanguage, LexFn};
use crate::language_id::{first_count, new_counter, share, LanguageId};
use crate::layout::{language_at, LANGUAGE_SIZE};
use crate::memory::in_memory;
use crate::module::{instantiate, module_instantiated, module_refused};
use crate::records::{
    cache_instance, cleared, collected, find_instance, gc_deleted_instances, instance_record,
    is_instance_of, make_record, missing_entry, record_refused,
    what_stays_was_there,
};
use crate::runtime::{
    compilation_refused, compile_module, error_text, memory_data, module_engine, module_source,
    StoreContents,
};
use crate::text::{holds_nul, join2};

verus! {

/// A loaded language: the copy of its static data, and what it takes to
/// instantiate it in further stores.
pub struct WasmLanguage {
    pub language: CLanguage,
    pub ref_count: AtomicU32,
    pub language_id: Arc<LanguageId>,
    pub module: wasmtime::Module,
    pub name: String,
    pub dylink_info: DylinkInfo,
}

/// Reads and validates the language at an address, and copies its static data.
pub fn copy_language_out(inner: &StoreInner, language_address: i32) -> (result: WasmResult<
    CopyOutput,
>)
    requires
        inner.wf(),
    ensures
        copies_out(inner.bytes(), language_address, inner.current_memory_offset, result),
{
    copy_language_from(
        memory_data(&inner.store, inner.memory),
        language_address,
        inner.current_memory_offset,
    )
}

/// Where the data of the next module is placed, once a module was.
pub open spec fn next_memory_offset(before: StoreInner, info: DylinkInfo) -> u32 {
    (before.current_memory_offset + info.memory_size) as u32
}

/// Where the table entries of the next module are placed, once a module was.
pub open spec fn next_function_table_offset(before: StoreInner, info: DylinkInfo) -> u32 {
    (before.current_function_table_offset + info.table_size) as u32
}

/// A copied language that is marked as backed by a Wasm module.
pub open spec fn marked(language: CLanguage) -> CLanguage {
    CLanguage { lex_fn: Some(LexFn::Sentinel), keyword_lex_fn: None, ..language }
}

/// Whether `after` has the instances of `before` whose languages were not found
/// deleted, and one more; and whether the current one moved with its record.
pub open spec fn instance_added(
    before: StoreInner,
    after: StoreInner,
    record: LanguageWasmInstance,
) -> bool {
    exists|deleted: Seq<bool>, kept: Seq<LanguageWasmInstance>|
        #[trigger] cleared(before, deleted, kept, after.current_instance) && after.instances@
            == kept.push(record)
}

/// Whether `instance` is one of the module of `language`, which is a copy of what
/// stands at `address`, and is recorded in the store from then on.
pub open spec fn language_recorded(
    before: StoreInner,
    language: WasmLanguage,
    after: StoreInner,
    instance: wasmtime::Instance,
    address: i32,
    output: CopyOutput,
) -> bool {
    &&& module_instantiated(
        before,
        language.module,
        language.name@,
        language.dylink_info,
        after.held(),
        instance,
        address,
    )
    &&& copies_out(after.bytes(), address, after.current_memory_offset, Ok(output))
    &&& language.language == marked(output.language)
    &&& missing_entry(after.entries(), output.addresses) is None
    &&& instance_added(
        before,
        after,
        instance_record(after.entries(), instance, language.language_id, output.addresses),
    )
}

/// Whether `language` is a copy of that in `wasm`, which is instantiated in the
/// store from then on. There is one reference to it, and its identity is a new
/// one, which is not deleted.
pub open spec fn language_loaded(
    before: StoreInner,
    language_name: Seq<char>,
    wasm: Seq<u8>,
    after: StoreInner,
    language: WasmLanguage,
) -> bool {
    let info = language.dylink_info;
    &&& dylink_info(wasm) == Some(info)
    &&& module_source(language.module) == wasm
    &&& module_engine(language.module) == before.engine
    &&& language.name@ == language_name
    &&& !language_name.contains('\0')
    &&& first_count(language.ref_count) == 1
    &&& first_count(language.language_id.is_deleted) == 0
    &&& is_instance_of(before.instances@, language.language_id, None)
    &&& after == (StoreInner {
        store: after.store,
        instances: after.instances,
        current_instance: after.current_instance,
        current_memory_offset: next_memory_offset(before, info),
        current_function_table_offset: next_function_table_offset(before, info),
        ..before
    })
    &&& exists|instance: wasmtime::Instance, address: i32, output: CopyOutput|
        #[trigger] language_recorded(before, language, after, instance, address, output)
}

/// Whether a module whose language was found can still not be loaded: its
/// static data is wrong; else its name cannot be kept; else it refers to
/// functions that do not exist.
pub open spec fn language_refused(
    placed: StoreInner,
    language_name: Seq<char>,
    address: i32,
    failure: (u32, String),
) -> bool {
    let offset = placed.current_memory_offset;
    ||| copies_out(placed.bytes(), address, offset, Err(failure))
    ||| {
        &&& exists|output: CopyOutput|
            #[trigger] copies_out(placed.bytes(), address, offset, Ok(output))
        &&& language_name.contains('\0')
        &&& failure.0 == INSTANTIATE
        &&& failure.1@ == "invalid language name: embedded NUL byte"@
    }
    ||| exists|output: CopyOutput|
        {
            &&& #[trigger] copies_out(placed.bytes(), address, offset, Ok(output))
            &&& !language_name.contains('\0')
            &&& record_refused(placed.entries(), output.addresses, failure.0, failure.1@)
        }
}

/// Whether loading a language from a module with a `dylink.0` section can fail
/// like this: the runtime refuses to compile it, or it cannot be instantiated,
/// or its language is refused.
pub open spec fn placed_load_refused(
    before: StoreInner,
    language_name: Seq<char>,
    wasm: Seq<u8>,
    info: DylinkInfo,
    after: StoreContents,
    failure: (u32, String),
) -> bool {
    ||| failure.0 == COMPILE && exists|text: Seq<char>|
        #[trigger] compilation_refused(wasm, text) && failure.1@
            == "error compiling Wasm module: "@ + text
    ||| exists|module: wasmtime::Module|
        module_source(module) == wasm && module_engine(module) == before.engine
            && #[trigger] module_refused(
            before,
            module,
            language_name,
            info,
            after,
            failure.0,
            failure.1@,
        )
    ||| exists|
        module: wasmtime::Module,
        instance: wasmtime::Instance,
        address: i32,
        placed: StoreInner,
    |
        {
            &&& module_source(module) == wasm
            &&& module_engine(module) == before.engine
            &&& #[trigger] module_instantiated(
                before,
                module,
                language_name,
                info,
                after,
                instance,
                address,
            )
            &&& placed == (StoreInner {
                store: placed.store,
                current_memory_offset: next_memory_offset(before, info),
                current_function_table_offset: next_function_table_offset(before, info),
                ..before
            })
            &&& placed.held() == after
            &&& #[trigger] language_refused(placed, language_name, address, failure)
        }
}

/// Whether loading a language can fail like this.
pub open spec fn load_refused(
    before: StoreInner,
    language_name: Seq<char>,
    wasm: Seq<u8>,
    after: StoreContents,
    failure: (u32, String),
) -> bool {
    match dylink_info(wasm) {
        None => failure.0 == PARSE && failure.1@
            == "failed to parse dylink section of Wasm module"@,
        Some(info) => placed_load_refused(before, language_name, wasm, info, after, failure),
    }
}

/// Whether loading a language failed, and left the store alone but for what ran
/// in it.
pub open spec fn load_failed(
    before: StoreInner,
    language_name: Seq<char>,
    wasm: Seq<u8>,
    after: StoreInner,
    failure: (u32, String),
) -> bool {
    &&& after == (StoreInner { store: after.store, ..before })
    &&& load_refused(before, language_name, wasm, after.held(), failure)
}

/// Clears out instances of languages that have been deleted, then records that of
/// a newly loaded language.
fn record_loaded(inner: &mut StoreInner, record: LanguageWasmInstance)
    requires
        old(inner).wf(),
        record.belongs_to(old(inner).held()),
        is_instance_of(old(inner).instances@, record.language_id, None),
    ensures
        final(inner).wf(),
        *final(inner) == (StoreInner {
            instances: final(inner).instances,
            current_instance: final(inner).current_instance,
            ..*old(inner)
        }),
        instance_added(*old(inner), *final(inner), record),
{
    gc_deleted_instances(inner);
    proof {
        let before = old(inner).instances@;
        let deleted = choose|deleted: Seq<bool>|
            #[trigger] cleared(
                *old(inner),
                deleted,
                inner.instances@,
                inner.current_instance,
            );
        assert forall|i: int| 0 <= i < inner.instances@.len() implies (
        #[trigger] inner.instances@[i]).language_id != record.language_id by {
            let index = what_stays_was_there(before, deleted, i);
            assert(inner.instances@[i] == before[index]);
        }
    }
    inner.instances.push(record);
}

/// Whether `language` is a copy of what stands at `address`, and `instance` is
/// recorded as one of it.
pub open spec fn language_taken(
    placed: StoreInner,
    language: WasmLanguage,
    after: StoreInner,
    instance: wasmtime::Instance,
    address: i32,
    output: CopyOutput,
) -> bool {
    &&& copies_out(placed.bytes(), address, placed.current_memory_offset, Ok(output))
    &&& language.language == marked(output.language)
    &&& missing_entry(placed.entries(), output.addresses) is None
    &&& instance_added(
        placed,
        after,
        instance_record(placed.entries(), instance, language.language_id, output.addresses),
    )
}

/// Takes the language of a new instance: copies its static data, and records the
/// instance under a new identity. Where that fails the records are left alone.
fn take_language(
    inner: &mut StoreInner,
    instance: wasmtime::Instance,
    address: i32,
    module: wasmtime::Module,
    language_name: &str,
    info: DylinkInfo,
) -> (result: WasmResult<WasmLanguage>)
    requires
        old(inner).wf(),
        old(inner).held().instances.contains_key(instance),
    ensures
        final(inner).wf(),
        final(inner).held() == old(inner).held(),
        match result {
            Ok(language) => {
                &&& *final(inner) == (StoreInner {
                    store: final(inner).store,
                    instances: final(inner).instances,
                    current_instance: final(inner).current_instance,
                    ..*old(inner)
                })
                &&& language.module == module
                &&& language.name@ == language_name@
                &&& language.dylink_info == info
                &&& !language_name@.contains('\0')
                &&& first_count(language.ref_count) == 1
                &&& first_count(language.language_id.is_deleted) == 0
                &&& is_instance_of(old(inner).instances@, language.language_id, None)
                &&& exists|output: CopyOutput|
                    #[trigger] language_taken(
                        *old(inner),
                        language,
                        *final(inner),
                        instance,
                        address,
                        output,
                    )
            },
            Err(failure) => {
                &&& *final(inner) == (StoreInner { store: final(inner).store, ..*old(inner) })
                &&& language_refused(*old(inner), language_name@, address, failure)
            },
        },
{
    let output = match copy_language_out(inner, address) {
        Ok(output) => output,
        Err(failure) => {
            return Err(failure);
        },
    };
    let ghost copied = output;
    assert(copies_out(inner.bytes(), address, inner.current_memory_offset, Ok(copied)));
    if holds_nul(language_name) {
        return Err((INSTANTIATE, "invalid language name: embedded NUL byte".to_owned()));
    }
    let language_id = LanguageId::new(inner.instances.as_slice());
    let record = match make_record(inner, instance, share(&language_id), &output.addresses) {
        Ok(record) => record,
        Err(failure) => {
            return Err(failure);
        },
    };
    let ghost ready = *inner;
    record_loaded(inner, record);
    let mut language = output.language;
    language.lex_fn = Some(LexFn::Sentinel);
    language.keyword_lex_fn = None;
    let loaded = WasmLanguage {
        language,
        ref_count: new_counter(1, &[]),
        language_id,
        module,
        name: language_name.to_owned(),
        dylink_info: info,
    };
    assert(language_taken(*old(inner), loaded, *inner, instance, address, copied)) by {
        let (deleted, kept) = choose|deleted: Seq<bool>, kept: Seq<LanguageWasmInstance>|
            #[trigger] cleared(ready, deleted, kept, inner.current_instance)
                && inner.instances@ == kept.push(record);
        assert(cleared(*old(inner), deleted, kept, inner.current_instance));
    }
    Ok(loaded)
}

/// A language that was taken where a module was placed is recorded.
proof fn taken_is_recorded(
    before: StoreInner,
    placed: StoreInner,
    language: WasmLanguage,
    after: StoreInner,
    instance: wasmtime::Instance,
    address: i32,
    output: CopyOutput,
)
    requires
        placed == (StoreInner {
            store: placed.store,
            current_memory_offset: placed.current_memory_offset,
            current_function_table_offset: placed.current_function_table_offset,
            ..before
        }),
        after == (StoreInner {
            store: after.store,
            instances: after.instances,
            current_instance: after.current_instance,
            ..placed
        }),
        after.held() == placed.held(),
        module_instantiated(
            before,
            language.module,
            language.name@,
            language.dylink_info,
            placed.held(),
            instance,
            address,
        ),
        language_taken(placed, language, after, instance, address, output),
    ensures
        language_recorded(before, language, after, instance, address, output),
{
    let record = instance_record(
        placed.entries(),
        instance,
        language.language_id,
        output.addresses,
    );
    let (deleted, kept) = choose|deleted: Seq<bool>, kept: Seq<LanguageWasmInstance>|
        #[trigger] cleared(placed, deleted, kept, after.current_instance) && after.instances@
            == kept.push(record);
    assert(cleared(before, deleted, kept, after.current_instance));
    assert(instance_added(before, after, record));
}

/// Compiles and instantiates a module, and copies its language. Where that fails
/// the records are left alone.
pub fn load_language_inner(inner: &mut StoreInner, language_name: &str, wasm: &[u8]) -> (result:
    WasmResult<WasmLanguage>)
    requires
        old(inner).wf(),
    ensures
        final(inner).linked(),
        final(inner).complete(),
        old(inner).held().grows_to(final(inner).held()),
        state_kept(old(inner).held().state, final(inner).held().state),
        match result {
            Ok(language) => final(inner).wf() && language_loaded(
                *old(inner),
                language_name@,
                wasm@,
                *final(inner),
                language,
            ),
            Err(failure) => {
                &&& *final(inner) == (StoreInner {
                    store: final(inner).store,
                    current_memory_offset: final(inner).current_memory_offset,
                    current_function_table_offset: final(inner).current_function_table_offset,
                    ..*old(inner)
                })
                &&& load_refused(*old(inner), language_name@, wasm@, final(inner).held(), failure)
            },
        },
{
    let info = match dylink_info_parse(wasm) {
        Ok(info) => info,
        Err(failure) => {
            return Err(failure);
        },
    };
    let module = match compile_module(&inner.engine, wasm) {
        Ok(module) => module,
        Err(error) => {
            return Err(
                (COMPILE, join2("error compiling Wasm module: ", error_text(&error).as_str())),
            );
        },
    };
    let (instance, address) = match instantiate(inner, &module, language_name, &info) {
        Ok(found) => found,
        Err(failure) => {
            assert(module_refused(
                *old(inner),
                module,
                language_name@,
                info,
                inner.held(),
                failure.0,
                failure.1@,
            ));
            assert(placed_load_refused(
                *old(inner),
                language_name@,
                wasm@,
                info,
                inner.held(),
                failure,
            ));
            return Err(failure);
        },
    };
    assert(module_instantiated(
        *old(inner),
        module,
        language_name@,
        info,
        inner.held(),
        instance,
        address,
    ));
    let ghost placed = *inner;
    match take_language(inner, instance, address, module, language_name, info) {
        Ok(language) => {
            proof {
                let output = choose|output: CopyOutput|
                    #[trigger] language_taken(placed, language, *inner, instance, address, output);
                taken_is_recorded(
                    *old(inner),
                    placed,
                    language,
                    *inner,
                    instance,
                    address,
                    output,
                );
            }
            Ok(language)
        },
        Err(failure) => {
            assert(language_refused(placed, language_name@, address, failure));
            assert(placed_load_refused(
                *old(inner),
                language_name@,
                wasm@,
                info,
                inner.held(),
                failure,
            ));
            Err(failure)
        },
    }
}

/// Loads a language from a module, which is then instantiated in the store.
/// Where that fails the placement offsets and the records are what they were.
pub fn load_language(inner: &mut StoreInner, language_name: &str, wasm: &[u8]) -> (result:
    WasmResult<WasmLanguage>)
    requires
        old(inner).wf(),
    ensures
        final(inner).wf(),
        old(inner).held().grows_to(final(inner).held()),
        state_kept(old(inner).held().state, final(inner).held().state),
        match result {
            Ok(language) => language_loaded(
                *old(inner),
                language_name@,
                wasm@,
                *final(inner),
                language,
            ),
            Err(failure) => {
                &&& *final(inner) == (StoreInner { store: final(inner).store, ..*old(inner) })
                &&& load_refused(*old(inner), language_name@, wasm@, final(inner).held(), failure)
                &&& load_failed(*old(inner), language_name@, wasm@, *final(inner), failure)
            },
        },
{
    let memory_offset = inner.current_memory_offset;
    let function_table_offset = inner.current_function_table_offset;
    let result = load_language_inner(inner, language_name, wasm);
    if result.is_err() {
        inner.current_memory_offset = memory_offset;
        inner.current_function_table_offset = function_table_offset;
        proof {
            rolled_back_store_is_usable(*old(inner), *inner);
        }
    }
    result
}

/// Earlier placement offsets fit a store that has grown since.
proof fn rolled_back_store_is_usable(before: StoreInner, after: StoreInner)
    requires
        before.wf(),
        before.held().grows_to(after.held()),
        after == (StoreInner { store: after.store, ..before }),
        after.linked(),
    ensures
        after.wf(),
{
    assert(before.held().memories.contains_key(before.memory));
    assert(before.held().tables.contains_key(before.table));
}

/// Whether a language that was not instantiated in a store is so from then on.
pub open spec fn language_added(
    before: StoreInner,
    language: WasmLanguage,
    after: StoreInner,
) -> bool {
    let info = language.dylink_info;
    &&& after == (StoreInner {
        store: after.store,
        instances: after.instances,
        current_memory_offset: next_memory_offset(before, info),
        current_function_table_offset: next_function_table_offset(before, info),
        ..before
    })
    &&& exists|instance: wasmtime::Instance, address: i32|
        {
            let addresses = instance_addresses(language_at(after.bytes(), address as int));
            &&& #[trigger] module_instantiated(
                before,
                language.module,
                language.name@,
                info,
                after.held(),
                instance,
                address,
            )
            &&& in_memory(after.bytes(), address as int, LANGUAGE_SIZE as int)
            &&& missing_entry(after.entries(), addresses) is None
            &&& after.instances@ == before.instances@.push(
                instance_record(after.entries(), instance, language.language_id, addresses),
            )
        }
}

/// Uses a loaded language in a store: instantiates its module there if need be.
/// Returns the index of the store's instance of it. Where it cannot be
/// instantiated the placement offsets are what they were.
pub fn add_language(inner: &mut StoreInner, language: &WasmLanguage) -> (index: Option<usize>)
    requires
        old(inner).wf(),
    ensures
        final(inner).wf(),
        old(inner).held().grows_to(final(inner).held()),
        state_kept(old(inner).held().state, final(inner).held().state),
        exists|start: StoreInner|
            {
                &&& #[trigger] collected(*old(inner), start)
                &&& language_used(start, *language, *final(inner), index)
            },
{
    gc_deleted_instances(inner);
    let ghost start = *inner;
    assert(collected(*old(inner), start));
    match find_instance(inner.instances.as_slice(), &language.language_id) {
        Some(index) => {
            return Some(index);
        },
        None => {},
    }
    let memory_offset = inner.current_memory_offset;
    let function_table_offset = inner.current_function_table_offset;
    let (instance, address) = match instantiate(
        inner,
        &language.module,
        language.name.as_str(),
        &language.dylink_info,
    ) {
        Ok(found) => found,
        Err(_) => {
            return None;
        },
    };
    assert(module_instantiated(
        start,
        language.module,
        language.name@,
        language.dylink_info,
        inner.held(),
        instance,
        address,
    ));
    let addresses = read_instance_addresses(memory_data(&inner.store, inner.memory), address);
    let cached = match addresses {
        Some(addresses) => cache_instance(
            inner,
            instance,
            share(&language.language_id),
            &addresses,
        ).is_ok(),
        None => false,
    };
    if !cached {
        // The offsets already advanced when the instantiation succeeded.
        inner.current_memory_offset = memory_offset;
        inner.current_function_table_offset = function_table_offset;
        proof {
            rolled_back_store_is_usable(start, *inner);
        }
        return None;
    }
    assert(inner.instances@.len() == start.instances@.len() + 1);
    Some(inner.instances.len() - 1)
}

/// Whether `index` is that of the instance of a language, which was there, or
/// was added at the end. Without an index nothing changed but what runs.
pub open spec fn language_used(
    before: StoreInner,
    language: WasmLanguage,
    after: StoreInner,
    index: Option<usize>,
) -> bool {
    match index {
        Some(index) if index < before.instances@.len() => after == before && is_instance_of(
            before.instances@,
            language.language_id,
            Some(index),
        ),
        Some(index) => {
            &&& index == before.instances@.len()
            &&& is_instance_of(before.instances@, language.language_id, None)
            &&& language_added(before, language, after)
        },
        None => {
            &&& is_instance_of(before.instances@, language.language_id, None)
            &&& after == (StoreInner { store: after.store, ..before })
            &&& addition_refused(before, language, after.held())
        },
    }
}

/// Whether a language can fail to be instantiated: its module fails to be, its
/// language does not stand in memory, or it refers to functions that do not
/// exist.
pub open spec fn addition_refused(
    before: StoreInner,
    language: WasmLanguage,
    after: StoreContents,
) -> bool {
    ||| exists|kind: u32, message: Seq<char>|
        #[trigger] module_refused(
            before,
            language.module,
            language.name@,
            language.dylink_info,
            after,
            kind,
            message,
        )
    ||| exists|instance: wasmtime::Instance, address: i32|
        {
            let bytes = after.memories[before.memory];
            &&& #[trigger] module_instantiated(
                before,
                language.module,
                language.name@,
                language.dylink_info,
                after,
                instance,
                address,
            )
            &&& in_memory(bytes, address as int, LANGUAGE_SIZE as int) ==> missing_entry(
                after.tables[before.table],
                instance_addresses(language_at(bytes, address as int)),
            ) is Some
        }
}

} // verus!
