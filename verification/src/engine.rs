//! The store: the runtime's store with its memory, table and globals, the
//! stdlib in it, and the languages that were instantiated there.

use std::sync::Arc;

use vstd::prelude::*;

use crate::callbacks::{callback_ready, places_kept, state_kept, HostCallback};
use crate::error::{WasmResult, INSTANTIATE};
use crate::language_id::LanguageId;
use crate::layout::LEXER_SIZE;
use crate::lexer::CLexer;
use crate::memory::{heap_address, SERIALIZATION_BUFFER_SIZE};
use crate::runtime::{call_function, call_leads_to, contents, get_table, FuncKind, StoreContents};
use crate::text::{join2, signed_decimal, to_signed_decimal};

verus! {

/// A language instantiation within one store: the shared identity, the live
/// instance, and the seven functions taken from the shared function table, so
/// that no call has to look there. The address is an offset into linear memory,
/// which growth of the memory does not change.
pub struct LanguageWasmInstance {
    pub language_id: Arc<LanguageId>,
    pub instance: wasmtime::Instance,
    pub external_states_address: i32,
    pub lex_main_fn: Option<wasmtime::Func>,
    pub lex_keyword_fn: Option<wasmtime::Func>,
    pub scanner_create_fn: Option<wasmtime::Func>,
    pub scanner_destroy_fn: Option<wasmtime::Func>,
    pub scanner_serialize_fn: Option<wasmtime::Func>,
    pub scanner_deserialize_fn: Option<wasmtime::Func>,
    pub scanner_scan_fn: Option<wasmtime::Func>,
}

/// Whether no language has two records.
pub open spec fn one_record_each(instances: Seq<LanguageWasmInstance>) -> bool {
    forall|i: int, j: int|
        0 <= i < j < instances.len() ==> (#[trigger] instances[i]).language_id != (
        #[trigger] instances[j]).language_id
}

/// Whether a function, if there is one, belongs to a store.
pub open spec fn owns_func(store: StoreContents, func: Option<wasmtime::Func>) -> bool {
    func matches Some(func) ==> store.funcs.contains_key(func)
}

impl LanguageWasmInstance {
    /// Whether everything here belongs to a store.
    pub open spec fn belongs_to(self, store: StoreContents) -> bool {
        &&& store.instances.contains_key(self.instance)
        &&& owns_func(store, self.lex_main_fn)
        &&& owns_func(store, self.lex_keyword_fn)
        &&& owns_func(store, self.scanner_create_fn)
        &&& owns_func(store, self.scanner_destroy_fn)
        &&& owns_func(store, self.scanner_serialize_fn)
        &&& owns_func(store, self.scanner_deserialize_fn)
        &&& owns_func(store, self.scanner_scan_fn)
    }
}

/// Host functions that are provided to modules, and `reset_heap`, which comes
/// from the stdlib module.
pub struct BuiltinFunctions {
    pub reset_heap: Option<wasmtime::Func>,
    pub proc_exit: wasmtime::Func,
    pub abort: wasmtime::Func,
    pub assert_fail: wasmtime::Func,
    pub notify_memory_growth: wasmtime::Func,
    pub debug_message: wasmtime::Func,
    pub at_exit: wasmtime::Func,
    pub args_get: wasmtime::Func,
    pub args_sizes_get: wasmtime::Func,
}

/// Whether `func` is a host function of a store, of the given type.
pub open spec fn is_host_func(
    store: StoreContents,
    func: wasmtime::Func,
    callback: HostCallback,
    params: nat,
    results: nat,
) -> bool {
    store.funcs.contains_key(func) && store.funcs[func] == FuncKind::Host(callback, params, results)
}

impl BuiltinFunctions {
    /// Whether each host function is what its name says.
    pub open spec fn wf(self, store: StoreContents) -> bool {
        &&& is_host_func(store, self.proc_exit, HostCallback::Abort, 1, 0)
        &&& is_host_func(store, self.abort, HostCallback::Abort, 0, 0)
        &&& is_host_func(store, self.assert_fail, HostCallback::Abort, 4, 0)
        &&& is_host_func(store, self.notify_memory_growth, HostCallback::Noop, 1, 0)
        &&& is_host_func(store, self.debug_message, HostCallback::DebugMessage, 2, 0)
        &&& is_host_func(store, self.at_exit, HostCallback::Noop, 3, 1)
        &&& is_host_func(store, self.args_get, HostCallback::Noop, 2, 1)
        &&& is_host_func(store, self.args_sizes_get, HostCallback::Noop, 2, 1)
        &&& owns_func(store, self.reset_heap)
    }
}

/// The data of the runtime's store: only what host callbacks need while Wasm
/// code is on the stack. The memory and the table are filled in before any
/// module is instantiated.
pub struct State {
    pub memory: Option<wasmtime::Memory>,
    pub table: Option<wasmtime::Table>,
    pub current_lexer: Option<CLexer>,
    pub lexer_address: u32,
    /// What modules asked to be printed, oldest first.
    pub debug_messages: Vec<String>,
}

impl State {
    /// Nothing filled in.
    pub fn empty() -> (state: State)
        ensures
            state.memory is None,
            state.table is None,
            state.current_lexer is None,
            state.lexer_address == 0,
            state.debug_messages@.len() == 0,
    {
        State {
            memory: None,
            table: None,
            current_lexer: None,
            lexer_address: 0,
            debug_messages: Vec::new(),
        }
    }

    /// The memory that all modules share.
    pub fn memory(&self) -> (memory: &wasmtime::Memory)
        requires
            self.memory is Some,
        ensures
            Some(*memory) == self.memory,
    {
        self.memory.as_ref().unwrap()
    }

    /// The function table that all modules share.
    pub fn table(&self) -> (table: &wasmtime::Table)
        requires
            self.table is Some,
        ensures
            Some(*table) == self.table,
    {
        self.table.as_ref().unwrap()
    }
}

/// A store for languages. It owns the runtime's store, and through it all
/// instances, functions, the linear memory and the table.
pub struct StoreInner {
    pub engine: wasmtime::Engine,
    pub store: wasmtime::Store<State>,
    /// The memory that all modules share.
    pub memory: wasmtime::Memory,
    /// The function table that all modules share.
    pub table: wasmtime::Table,
    /// Where the lexer object stands in memory.
    pub lexer_address: u32,
    pub instances: Vec<LanguageWasmInstance>,
    /// The symbols that the stdlib exports to external scanners.
    pub stdlib_symbols: Vec<String>,
    /// The functions of those symbols.
    pub stdlib_fns: Vec<Option<wasmtime::Func>>,
    pub builtin_fns: BuiltinFunctions,
    /// The stdlib's `__stack_pointer` global.
    pub stack_pointer_global: wasmtime::Global,
    /// Where the next module's static data is placed (`__memory_base`).
    pub current_memory_offset: u32,
    /// Where the next module's table entries are placed (`__table_base`).
    pub current_function_table_offset: u32,
    /// Index into `instances` of the language that is being parsed with. It moves
    /// with its record.
    pub current_instance: Option<usize>,
    pub has_error: bool,
}

/// Whether calling `func` led from one state of a store to another: only the
/// runtime's store changed, whose data refers to the same places and has a lexer
/// as before, and the error flag was set where the call came to nothing.
pub open spec fn call_made(
    before: StoreInner,
    func: wasmtime::Func,
    args: Seq<i32>,
    result_count: nat,
    after: StoreInner,
    values: Option<Seq<Option<i32>>>,
) -> bool {
    &&& after == (StoreInner {
        store: after.store,
        has_error: before.has_error || values is None,
        ..before
    })
    &&& before.held().grows_to(after.held())
    &&& state_kept(before.held().state, after.held().state)
    &&& match values {
        Some(values) => values.len() == result_count && call_leads_to(
            before.held(),
            func,
            args,
            result_count,
            Ok(values),
            after.held(),
        ),
        None => exists|message: Seq<char>|
            #[trigger] call_leads_to(
                before.held(),
                func,
                args,
                result_count,
                Err(message),
                after.held(),
            ),
    }
}

/// The text of a failure to find a function table entry.
pub open spec fn invalid_entry_message(index: i32) -> Seq<char> {
    "invalid function table entry "@ + signed_decimal(index as int)
}

impl StoreInner {
    /// What the runtime's store holds.
    pub open spec fn held(self) -> StoreContents {
        contents(self.store)
    }

    /// The bytes of the shared memory.
    pub open spec fn bytes(self) -> Seq<u8> {
        self.held().memories[self.memory]
    }

    /// The entries of the shared function table.
    pub open spec fn entries(self) -> Seq<Option<wasmtime::Func>> {
        self.held().tables[self.table]
    }

    /// Whether the runtime's store is of the engine, what modules are linked to
    /// belongs to it, and host functions find the same memory, table and lexer
    /// object there.
    pub open spec fn linked(self) -> bool {
        &&& self.held().engine == self.engine
        &&& self.held().state.memory == Some(self.memory)
        &&& self.held().state.table == Some(self.table)
        &&& self.held().state.lexer_address == self.lexer_address
        &&& self.held().memories.contains_key(self.memory)
        &&& self.held().tables.contains_key(self.table)
        &&& self.held().globals.contains_key(self.stack_pointer_global)
        &&& self.builtin_fns.wf(self.held())
        &&& self.stdlib_fns@.len() == self.stdlib_symbols@.len()
        &&& forall|i: int|
            0 <= i < self.stdlib_fns@.len() ==> owns_func(
                self.held(),
                #[trigger] self.stdlib_fns@[i],
            )
        &&& forall|i: int|
            0 <= i < self.instances@.len() ==> (#[trigger] self.instances@[i]).belongs_to(
                self.held(),
            )
    }

    /// Whether the stdlib gave everything that is asked of it.
    pub open spec fn complete(self) -> bool {
        &&& self.builtin_fns.reset_heap is Some
        &&& forall|i: int|
            0 <= i < self.stdlib_fns@.len() ==> (#[trigger] self.stdlib_fns@[i]) is Some
    }

    /// Whether the memory is laid out: the lexer, then the data of modules,
    /// then room for a serialized scanner, all inside the memory; and whether
    /// the entries of modules are inside the table.
    pub open spec fn laid_out(self) -> bool {
        &&& self.lexer_address + LEXER_SIZE <= self.current_memory_offset
        &&& self.current_memory_offset + SERIALIZATION_BUFFER_SIZE <= self.bytes().len()
        &&& self.current_memory_offset + SERIALIZATION_BUFFER_SIZE <= u32::MAX
        &&& self.current_function_table_offset <= self.entries().len()
    }

    /// Whether the store is usable.
    pub open spec fn wf(self) -> bool {
        &&& one_record_each(self.instances@)
        &&& self.current_instance is Some ==> self.is_active()
        &&& self.linked()
        &&& self.complete()
        &&& self.laid_out()
    }

    /// Where the lexer object stands in memory.
    pub fn lexer_address(&self) -> (address: u32)
        ensures
            address == self.lexer_address,
    {
        self.lexer_address
    }

    /// Whether a language is being parsed with.
    pub open spec fn is_active(self) -> bool {
        self.current_instance matches Some(index) && index < self.instances@.len()
    }

    /// The language that is being parsed with.
    pub open spec fn active(self) -> LanguageWasmInstance {
        self.instances@[self.current_instance->0 as int]
    }

    /// The language that is being parsed with.
    pub fn current_instance(&self) -> (instance: &LanguageWasmInstance)
        requires
            self.is_active(),
        ensures
            *instance == self.active(),
    {
        let index = self.current_instance.unwrap();
        &self.instances[index]
    }

    /// Calls a function. Errors and traps are both swallowed into `has_error`,
    /// and nothing is returned.
    pub fn call_unchecked(&mut self, func: wasmtime::Func, args: &[i32], result_count: usize) -> (
    values: Option<Vec<Option<i32>>>)
        requires
            callback_ready(old(self).held()),
            old(self).held().funcs.contains_key(func),
        ensures
            call_made(
                *old(self),
                func,
                args@,
                result_count as nat,
                *final(self),
                match values {
                    Some(values) => Some(values@),
                    None => None,
                },
            ),
    {
        match call_function(&mut self.store, func, args, result_count) {
            Ok(values) => Some(values),
            Err(error) => {
                self.has_error = true;
                None
            },
        }
    }

    /// Fetches a function from the shared function table. An empty entry (as
    /// in a grammar without external scanner) yields nothing.
    pub fn get_function(&mut self, function_index: i32) -> (result: WasmResult<
        Option<wasmtime::Func>,
    >)
        requires
            old(self).held().tables.contains_key(old(self).table),
        ensures
            *final(self) == (StoreInner { store: final(self).store, ..*old(self) }),
            final(self).held() == old(self).held(),
            if 0 <= function_index < old(self).entries().len() {
                &&& result matches Ok(func) && func == old(self).entries()[function_index as int]
                &&& owns_func(final(self).held(), result->Ok_0)
            } else {
                result matches Err((kind, message)) && kind == INSTANTIATE && message@
                    == invalid_entry_message(function_index)
            },
    {
        if function_index >= 0 {
            match get_table(&mut self.store, self.table, function_index as u64) {
                Some(func) => {
                    return Ok(func);
                },
                None => {},
            }
        }
        Err(
            (
                INSTANTIATE,
                join2(
                    "invalid function table entry ",
                    to_signed_decimal(function_index).as_str(),
                ),
            ),
        )
    }

    /// Where the scanner heap starts.
    pub fn heap_address(&self) -> (address: u32)
        requires
            self.current_memory_offset + SERIALIZATION_BUFFER_SIZE <= u32::MAX,
        ensures
            address == self.current_memory_offset + SERIALIZATION_BUFFER_SIZE,
    {
        heap_address(self.current_memory_offset)
    }
}

/// A store stays usable, whatever runs in the runtime's store.
pub proof fn running_keeps_the_store_usable(before: StoreInner, after: StoreInner)
    requires
        before.wf(),
        before.held().grows_to(after.held()),
        places_kept(before.held().state, after.held().state),
        after == (StoreInner { store: after.store, has_error: after.has_error, ..before }),
    ensures
        after.wf(),
        before.bytes().len() <= after.bytes().len(),
        before.entries().len() <= after.entries().len(),
{
    assert forall|i: int| 0 <= i < after.instances@.len() implies (
    #[trigger] after.instances@[i]).belongs_to(after.held()) by {
        assert(before.instances@[i].belongs_to(before.held()));
    }
    assert forall|i: int| 0 <= i < after.stdlib_fns@.len() implies owns_func(
        after.held(),
        #[trigger] after.stdlib_fns@[i],
    ) by {
        assert(owns_func(before.held(), before.stdlib_fns@[i]));
    }
}

} // verus!
