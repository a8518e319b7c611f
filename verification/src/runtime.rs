//! The WebAssembly runtime: what `wasmtime` holds and does, as far as this
//! crate relies on it. Every call into `wasmtime` is made from here.

use vstd::prelude::*;
use vstd::utf8::{decode_utf8, valid_utf8};

use crate::callbacks::{callback_ready, run_callback, state_kept, HostCallback};
use crate::engine::State;
use crate::memory::MEMORY_PAGE_SIZE;

verus! {

#[verifier::external_type_specification]
#[verifier::external_body]
pub struct ExEngine(wasmtime::Engine);

#[verifier::external_type_specification]
#[verifier::external_body]
#[verifier::reject_recursive_types(T)]
pub struct ExStore<T: 'static>(wasmtime::Store<T>);

#[verifier::external_type_specification]
#[verifier::external_body]
#[verifier::reject_recursive_types(T)]
pub struct ExCaller<'a, T: 'static>(wasmtime::Caller<'a, T>);

#[verifier::external_type_specification]
#[verifier::external_body]
pub struct ExModule(wasmtime::Module);

#[verifier::external_type_specification]
#[verifier::external_body]
pub struct ExMemory(wasmtime::Memory);

#[verifier::external_type_specification]
#[verifier::external_body]
pub struct ExTable(wasmtime::Table);

#[verifier::external_type_specification]
#[verifier::external_body]
pub struct ExGlobal(wasmtime::Global);

#[verifier::external_type_specification]
#[verifier::external_body]
pub struct ExFunc(wasmtime::Func);

#[verifier::external_type_specification]
#[verifier::external_body]
pub struct ExInstance(wasmtime::Instance);

#[verifier::external_type_specification]
#[verifier::external_body]
pub struct ExVal(wasmtime::Val);

#[verifier::external_type_specification]
#[verifier::external_body]
pub struct ExError(wasmtime::Error);

/// Something that a module imports.
#[derive(Clone, Copy)]
pub enum Import {
    Func(wasmtime::Func),
    Global(wasmtime::Global),
    Table(wasmtime::Table),
    Memory(wasmtime::Memory),
}

/// Something that an instance exports.
#[derive(Clone, Copy)]
pub enum Export {
    Func(wasmtime::Func),
    Global(wasmtime::Global),
    /// A memory, a table, or what else there is.
    Other,
}

/// What stands behind a function handle.
pub enum FuncKind {
    /// A function of this crate, with its numbers of parameters and results,
    /// all of them 32-bit integers.
    Host(HostCallback, nat, nat),
    /// A function of a module.
    Wasm,
}

/// What stands behind a global handle.
pub enum GlobalKind {
    /// A 32-bit integer that never changes.
    Constant(i32),
    /// Any other global.
    Other,
}

/// What a store holds. A handle belongs to the store exactly where it is a key
/// here; the memories are those with pages of 64 KiB, the tables those whose
/// elements are `funcref`. A handle stands for the thing itself: two handles to
/// one function are the same.
pub struct StoreContents {
    /// The engine that the store was made with, which it keeps.
    pub engine: wasmtime::Engine,
    /// The data that the store was given.
    pub state: State,
    /// The bytes of each memory.
    pub memories: Map<wasmtime::Memory, Seq<u8>>,
    /// The entries of each table.
    pub tables: Map<wasmtime::Table, Seq<Option<wasmtime::Func>>>,
    pub funcs: Map<wasmtime::Func, FuncKind>,
    pub globals: Map<wasmtime::Global, GlobalKind>,
    /// The exports of each instance, by name.
    pub instances: Map<wasmtime::Instance, Map<Seq<char>, Export>>,
}

impl StoreContents {
    /// Whether something to import belongs to the store.
    pub open spec fn owns(self, import: Import) -> bool {
        match import {
            Import::Func(func) => self.funcs.contains_key(func),
            Import::Global(global) => self.globals.contains_key(global),
            Import::Table(table) => self.tables.contains_key(table),
            Import::Memory(memory) => self.memories.contains_key(memory),
        }
    }

    /// The same contents with other data.
    pub open spec fn with_state(self, state: State) -> StoreContents {
        StoreContents { state, ..self }
    }

    /// The same contents with other bytes in one memory.
    pub open spec fn with_memory(self, memory: wasmtime::Memory, bytes: Seq<u8>) -> StoreContents {
        StoreContents { memories: self.memories.insert(memory, bytes), ..self }
    }

    /// The same contents with other entries in one table.
    pub open spec fn with_table(
        self,
        table: wasmtime::Table,
        entries: Seq<Option<wasmtime::Func>>,
    ) -> StoreContents {
        StoreContents { tables: self.tables.insert(table, entries), ..self }
    }

    /// The same contents and one function more.
    pub open spec fn with_func(self, func: wasmtime::Func, kind: FuncKind) -> StoreContents {
        StoreContents { funcs: self.funcs.insert(func, kind), ..self }
    }

    /// The same contents and one global more.
    pub open spec fn with_global(self, global: wasmtime::Global, kind: GlobalKind) -> StoreContents {
        StoreContents { globals: self.globals.insert(global, kind), ..self }
    }

    /// Whether a store with these contents can come to hold `later`, whatever
    /// runs in it: nothing that it holds goes away, memories and tables do not
    /// shrink, and functions, constants and exports stay what they are.
    pub open spec fn grows_to(self, later: StoreContents) -> bool {
        &&& later.engine == self.engine
        &&& forall|memory: wasmtime::Memory| #[trigger]
            self.memories.contains_key(memory) ==> later.memories.contains_key(memory)
                && self.memories[memory].len() <= later.memories[memory].len()
        &&& forall|table: wasmtime::Table| #[trigger]
            self.tables.contains_key(table) ==> later.tables.contains_key(table)
                && self.tables[table].len() <= later.tables[table].len()
        &&& forall|func: wasmtime::Func| #[trigger]
            self.funcs.contains_key(func) ==> later.funcs.contains_key(func) && later.funcs[func]
                == self.funcs[func]
        &&& forall|global: wasmtime::Global| #[trigger]
            self.globals.contains_key(global) ==> later.globals.contains_key(global)
                && later.globals[global] == self.globals[global]
        &&& forall|instance: wasmtime::Instance| #[trigger]
            self.instances.contains_key(instance) ==> later.instances.contains_key(instance)
                && later.instances[instance] == self.instances[instance]
    }
}

/// Growing twice is growing.
pub proof fn growth_is_transitive(
    first: StoreContents,
    second: StoreContents,
    third: StoreContents,
)
    requires
        first.grows_to(second),
        second.grows_to(third),
    ensures
        first.grows_to(third),
{
    assert forall|memory: wasmtime::Memory| #[trigger]
        first.memories.contains_key(memory) implies third.memories.contains_key(memory)
        && first.memories[memory].len() <= third.memories[memory].len() by {
        assert(second.memories.contains_key(memory));
    }
    assert forall|table: wasmtime::Table| #[trigger]
        first.tables.contains_key(table) implies third.tables.contains_key(table)
        && first.tables[table].len() <= third.tables[table].len() by {
        assert(second.tables.contains_key(table));
    }
    assert forall|func: wasmtime::Func| #[trigger]
        first.funcs.contains_key(func) implies third.funcs.contains_key(func) && third.funcs[func]
        == first.funcs[func] by {
        assert(second.funcs.contains_key(func));
    }
    assert forall|global: wasmtime::Global| #[trigger]
        first.globals.contains_key(global) implies third.globals.contains_key(global)
        && third.globals[global] == first.globals[global] by {
        assert(second.globals.contains_key(global));
    }
    assert forall|instance: wasmtime::Instance| #[trigger]
        first.instances.contains_key(instance) implies third.instances.contains_key(instance)
        && third.instances[instance] == first.instances[instance] by {
        assert(second.instances.contains_key(instance));
    }
}

/// `bytes` with those from `at` on replaced by `part`.
pub open spec fn overwritten(bytes: Seq<u8>, at: int, part: Seq<u8>) -> Seq<u8> {
    bytes.subrange(0, at) + part + bytes.subrange(at + part.len(), bytes.len() as int)
}

/// The bytes of `pages` fresh pages.
pub open spec fn blank_pages(pages: int) -> Seq<u8> {
    Seq::new((pages * MEMORY_PAGE_SIZE) as nat, |i: int| 0u8)
}

/// `count` empty table entries.
pub open spec fn empty_entries(count: nat) -> Seq<Option<wasmtime::Func>> {
    Seq::new(count, |i: int| None)
}

/// What a store holds.
pub uninterp spec fn contents(store: wasmtime::Store<State>) -> StoreContents;

/// What the store behind the caller of a host function holds.
pub uninterp spec fn caller_contents(caller: wasmtime::Caller<'_, State>) -> StoreContents;

/// The text of a runtime error.
pub uninterp spec fn error_message(error: wasmtime::Error) -> Seq<char>;

/// The 32-bit integer that a Wasm value is, where it is one.
pub uninterp spec fn val_i32(val: wasmtime::Val) -> Option<i32>;

/// The bytes that a module was compiled from.
pub uninterp spec fn module_source(module: wasmtime::Module) -> Seq<u8>;

/// The engine that a module was compiled with.
pub uninterp spec fn module_engine(module: wasmtime::Module) -> wasmtime::Engine;

/// Whether the runtime can refuse to compile `wasm`, with an error of the given
/// text.
pub uninterp spec fn compilation_refused(wasm: Seq<u8>, text: Seq<char>) -> bool;

/// Whether the runtime can refuse to make a memory, with an error of the given
/// text.
pub uninterp spec fn memory_refused(
    before: StoreContents,
    minimum: u32,
    maximum: u32,
    text: Seq<char>,
) -> bool;

/// Whether the runtime can refuse to make a table, with an error of the given
/// text.
pub uninterp spec fn table_refused(
    before: StoreContents,
    minimum: u32,
    maximum: u32,
    text: Seq<char>,
) -> bool;

/// Whether the runtime can refuse to grow a memory by some pages.
pub uninterp spec fn memory_growth_refused(
    before: StoreContents,
    memory: wasmtime::Memory,
    pages: u64,
) -> bool;

/// Whether the runtime can refuse to grow a table by some entries, with an
/// error of the given text.
pub uninterp spec fn table_growth_refused(
    before: StoreContents,
    table: wasmtime::Table,
    count: u64,
    text: Seq<char>,
) -> bool;

/// What the module in `wasm` imports, in order: names, and for a memory its
/// least number of pages.
pub uninterp spec fn wasm_imports(wasm: Seq<u8>) -> Seq<(Seq<char>, Option<u64>)>;

/// The names that the module in `wasm` exports, in order.
pub uninterp spec fn wasm_exports(wasm: Seq<u8>) -> Seq<Seq<char>>;

/// Whether calling `func` with `args` for a number of results, in a store that
/// holds `before`, can leave it holding `after` and come to `outcome`: the
/// results, each of them where it is a 32-bit integer, or the text of an error.
pub uninterp spec fn call_leads_to(
    before: StoreContents,
    func: wasmtime::Func,
    args: Seq<i32>,
    result_count: nat,
    outcome: Result<Seq<Option<i32>>, Seq<char>>,
    after: StoreContents,
) -> bool;

/// Whether instantiating `module` with `imports`, in a store that holds
/// `before`, can leave it holding `after` and come to `outcome`: the instance,
/// or the text of an error.
pub uninterp spec fn instantiation_leads_to(
    before: StoreContents,
    module: wasmtime::Module,
    imports: Seq<Import>,
    outcome: Result<wasmtime::Instance, Seq<char>>,
    after: StoreContents,
) -> bool;

/// The text that `bytes` hold, with what is no UTF-8 replaced.
pub uninterp spec fn utf8_lossy(bytes: Seq<u8>) -> Seq<char>;

/// `String::from_utf8_lossy`: the text of the bytes, which is exact where they
/// are UTF-8.
#[verifier::external_body]
pub(crate) fn text_from_utf8_lossy(bytes: &[u8]) -> (text: String)
    ensures
        text@ == utf8_lossy(bytes@),
        valid_utf8(bytes@) ==> text@ == decode_utf8(bytes@),
{
    String::from_utf8_lossy(bytes).into_owned()
}

/// `wasmtime::Store::new`: a store of the given engine, with the given data.
#[verifier::external_body]
pub(crate) fn new_store(engine: &wasmtime::Engine, state: State) -> (store: wasmtime::Store<State>)
    ensures
        contents(store).engine == *engine,
        contents(store).state == state,
{
    wasmtime::Store::new(engine, state)
}

/// `wasmtime::Store::data_mut`: the data of a store, to be changed.
#[verifier::external_body]
pub(crate) fn store_data_mut(store: &mut wasmtime::Store<State>) -> (state: &mut State)
    ensures
        *state == contents(*old(store)).state,
        contents(*final(store)) == contents(*old(store)).with_state(*final(state)),
{
    store.data_mut()
}

/// `wasmtime::Caller::data_mut`: the data of the store behind a caller, to be
/// changed.
#[verifier::external_body]
pub(crate) fn caller_data_mut<'a>(caller: &'a mut wasmtime::Caller<'_, State>) -> (state:
    &'a mut State)
    ensures
        *state == caller_contents(*old(caller)).state,
        caller_contents(*final(caller)) == caller_contents(*old(caller)).with_state(*final(state)),
{
    caller.data_mut()
}

/// `wasmtime::Module::new`: compiles a module for an engine. Which modules can
/// be compiled is the runtime's to say, and so is the error.
#[verifier::external_body]
pub(crate) fn compile_module(engine: &wasmtime::Engine, wasm: &[u8]) -> (module: Result<
    wasmtime::Module,
    wasmtime::Error,
>)
    ensures
        match module {
            Ok(module) => module_source(module) == wasm@ && module_engine(module) == *engine,
            Err(error) => compilation_refused(wasm@, error_message(error)),
        },
{
    wasmtime::Module::new(engine, wasm)
}

/// `wasmtime::Module::imports`, and of each import its name and, for a memory,
/// its least number of pages.
#[verifier::external_body]
pub(crate) fn module_imports(module: &wasmtime::Module) -> (imports: Vec<(String, Option<u64>)>)
    ensures
        imports@.len() == wasm_imports(module_source(*module)).len(),
        forall|i: int|
            0 <= i < imports@.len() ==> (#[trigger] imports@[i]).0@ == wasm_imports(
                module_source(*module),
            )[i].0 && imports@[i].1 == wasm_imports(module_source(*module))[i].1,
{
    module.imports().map(
        |import|
            {
                let minimum = match import.ty() {
                    wasmtime::ExternType::Memory(memory) => Some(memory.minimum()),
                    _ => None,
                };
                (import.name().to_string(), minimum)
            },
    ).collect()
}

/// `wasmtime::Module::exports`, and of each export its name.
#[verifier::external_body]
pub(crate) fn module_exports(module: &wasmtime::Module) -> (exports: Vec<String>)
    ensures
        exports@.len() == wasm_exports(module_source(*module)).len(),
        forall|i: int|
            0 <= i < exports@.len() ==> (#[trigger] exports@[i])@ == wasm_exports(
                module_source(*module),
            )[i],
{
    module.exports().map(|export| export.name().to_string()).collect()
}

/// `wasmtime::Memory::new`: a zeroed memory of `minimum` pages that may grow to
/// `maximum`. It can fail, which leaves the store alone.
#[verifier::external_body]
pub(crate) fn new_memory(store: &mut wasmtime::Store<State>, minimum: u32, maximum: u32) -> (memory:
    Result<wasmtime::Memory, wasmtime::Error>)
    requires
        minimum <= maximum <= 0x10000,
    ensures
        match memory {
            Ok(memory) => !contents(*old(store)).memories.contains_key(memory),
            Err(error) => memory_refused(
                contents(*old(store)),
                minimum,
                maximum,
                error_message(error),
            ),
        },
        contents(*final(store)) == match memory {
            Ok(memory) => contents(*old(store)).with_memory(memory, blank_pages(minimum as int)),
            Err(_) => contents(*old(store)),
        },
{
    wasmtime::Memory::new(&mut *store, wasmtime::MemoryType::new(minimum, Some(maximum)))
}

/// `wasmtime::Memory::data`: the bytes of a memory.
#[verifier::external_body]
pub(crate) fn memory_data<'a>(
    store: &'a wasmtime::Store<State>,
    memory: wasmtime::Memory,
) -> (bytes: &'a [u8])
    requires
        contents(*store).memories.contains_key(memory),
    ensures
        bytes@ == contents(*store).memories[memory],
{
    memory.data(store)
}

/// `wasmtime::Memory::data`, in the store behind a caller.
#[verifier::external_body]
pub(crate) fn caller_memory_data<'a>(
    caller: &'a wasmtime::Caller<'_, State>,
    memory: wasmtime::Memory,
) -> (bytes: &'a [u8])
    requires
        caller_contents(*caller).memories.contains_key(memory),
    ensures
        bytes@ == caller_contents(*caller).memories[memory],
{
    memory.data(caller)
}

/// `wasmtime::Memory::write`: overwrites bytes of a memory, unless they do not
/// all lie inside it.
#[verifier::external_body]
pub(crate) fn write_memory(
    store: &mut wasmtime::Store<State>,
    memory: wasmtime::Memory,
    at: usize,
    bytes: &[u8],
) -> (done: bool)
    requires
        contents(*old(store)).memories.contains_key(memory),
    ensures
        done == (at + bytes@.len() <= contents(*old(store)).memories[memory].len()),
        contents(*final(store)) == if done {
            contents(*old(store)).with_memory(
                memory,
                overwritten(contents(*old(store)).memories[memory], at as int, bytes@),
            )
        } else {
            contents(*old(store))
        },
{
    memory.write(&mut *store, at, bytes).is_ok()
}

/// `wasmtime::Memory::write`, in the store behind a caller.
#[verifier::external_body]
pub(crate) fn caller_write_memory(
    caller: &mut wasmtime::Caller<'_, State>,
    memory: wasmtime::Memory,
    at: usize,
    bytes: &[u8],
) -> (done: bool)
    requires
        caller_contents(*old(caller)).memories.contains_key(memory),
    ensures
        done == (at + bytes@.len() <= caller_contents(*old(caller)).memories[memory].len()),
        caller_contents(*final(caller)) == if done {
            caller_contents(*old(caller)).with_memory(
                memory,
                overwritten(caller_contents(*old(caller)).memories[memory], at as int, bytes@),
            )
        } else {
            caller_contents(*old(caller))
        },
{
    memory.write(&mut *caller, at, bytes).is_ok()
}

/// `wasmtime::Memory::grow`: appends zeroed pages to a memory. It can fail,
/// which leaves the memory alone.
#[verifier::external_body]
pub(crate) fn grow_memory(
    store: &mut wasmtime::Store<State>,
    memory: wasmtime::Memory,
    pages: u64,
) -> (previous: Result<u64, wasmtime::Error>)
    requires
        contents(*old(store)).memories.contains_key(memory),
    ensures
        contents(*final(store)) == match previous {
            Ok(_) => contents(*old(store)).with_memory(
                memory,
                contents(*old(store)).memories[memory] + blank_pages(pages as int),
            ),
            Err(_) => contents(*old(store)),
        },
        match previous {
            Ok(count) => count * MEMORY_PAGE_SIZE == contents(*old(store)).memories[memory].len(),
            Err(_) => memory_growth_refused(contents(*old(store)), memory, pages),
        },
{
    memory.grow(&mut *store, pages)
}

/// `wasmtime::Table::new`: a table of `minimum` empty function references that
/// may grow to `maximum`. It can fail, which leaves the store alone.
#[verifier::external_body]
pub(crate) fn new_table(store: &mut wasmtime::Store<State>, minimum: u32, maximum: u32) -> (table:
    Result<wasmtime::Table, wasmtime::Error>)
    requires
        minimum <= maximum,
    ensures
        match table {
            Ok(table) => !contents(*old(store)).tables.contains_key(table),
            Err(error) => table_refused(
                contents(*old(store)),
                minimum,
                maximum,
                error_message(error),
            ),
        },
        contents(*final(store)) == match table {
            Ok(table) => contents(*old(store)).with_table(table, empty_entries(minimum as nat)),
            Err(_) => contents(*old(store)),
        },
{
    wasmtime::Table::new(
        &mut *store,
        wasmtime::TableType::new(wasmtime::RefType::FUNCREF, minimum, Some(maximum)),
        wasmtime::Ref::Func(None),
    )
}

/// `wasmtime::Table::grow`: appends empty entries to a table and returns how
/// many there were. It can fail, unless there is nothing to append, which
/// leaves the table alone.
#[verifier::external_body]
pub(crate) fn grow_table(
    store: &mut wasmtime::Store<State>,
    table: wasmtime::Table,
    count: u64,
) -> (previous: Result<u64, wasmtime::Error>)
    requires
        contents(*old(store)).tables.contains_key(table),
    ensures
        contents(*final(store)) == match previous {
            Ok(_) => contents(*old(store)).with_table(
                table,
                contents(*old(store)).tables[table] + empty_entries(count as nat),
            ),
            Err(_) => contents(*old(store)),
        },
        match previous {
            Ok(previous) => previous == contents(*old(store)).tables[table].len(),
            Err(error) => count > 0 && table_growth_refused(
                contents(*old(store)),
                table,
                count,
                error_message(error),
            ),
        },
{
    table.grow(&mut *store, count, wasmtime::Ref::Func(None))
}

/// `wasmtime::Table::set`: puts a function into a table, unless there is no
/// such entry.
#[verifier::external_body]
pub(crate) fn set_table(
    store: &mut wasmtime::Store<State>,
    table: wasmtime::Table,
    index: u64,
    func: wasmtime::Func,
) -> (done: bool)
    requires
        contents(*old(store)).tables.contains_key(table),
        contents(*old(store)).funcs.contains_key(func),
    ensures
        done == (index < contents(*old(store)).tables[table].len()),
        contents(*final(store)) == if done {
            contents(*old(store)).with_table(
                table,
                contents(*old(store)).tables[table].update(index as int, Some(func)),
            )
        } else {
            contents(*old(store))
        },
{
    table.set(&mut *store, index, wasmtime::Ref::Func(Some(func))).is_ok()
}

/// `wasmtime::Table::get`: the entry of a table, if there is one.
#[verifier::external_body]
pub(crate) fn get_table(
    store: &mut wasmtime::Store<State>,
    table: wasmtime::Table,
    index: u64,
) -> (entry: Option<Option<wasmtime::Func>>)
    requires
        contents(*old(store)).tables.contains_key(table),
    ensures
        contents(*final(store)) == contents(*old(store)),
        entry == if index < contents(*old(store)).tables[table].len() {
            Some(contents(*old(store)).tables[table][index as int])
        } else {
            None
        },
        entry matches Some(Some(func)) ==> contents(*final(store)).funcs.contains_key(func),
{
    match table.get(&mut *store, index) {
        Some(wasmtime::Ref::Func(func)) => Some(func),
        _ => None,
    }
}

/// `wasmtime::Global::new` for a 32-bit integer: a global that can change, or
/// a constant.
#[verifier::external_body]
pub(crate) fn new_global(store: &mut wasmtime::Store<State>, mutable: bool, value: i32) -> (global:
    wasmtime::Global)
    ensures
        !contents(*old(store)).globals.contains_key(global),
        contents(*final(store)) == contents(*old(store)).with_global(
            global,
            if mutable {
                GlobalKind::Other
            } else {
                GlobalKind::Constant(value)
            },
        ),
{
    let mutability = if mutable {
        wasmtime::Mutability::Var
    } else {
        wasmtime::Mutability::Const
    };
    let ty = wasmtime::GlobalType::new(wasmtime::ValType::I32, mutability);
    wasmtime::Global::new(&mut *store, ty, wasmtime::Val::I32(value)).expect("a global of i32")
}

/// `wasmtime::Func::new`: a host function on 32-bit integers. When Wasm code
/// calls it, it is [`run_callback`] that runs, with the caller of the store
/// that the function belongs to.
#[verifier::external_body]
pub(crate) fn new_host_function(
    store: &mut wasmtime::Store<State>,
    callback: HostCallback,
    params: usize,
    results: usize,
) -> (func: wasmtime::Func)
    ensures
        !contents(*old(store)).funcs.contains_key(func),
        contents(*final(store)) == contents(*old(store)).with_func(
            func,
            FuncKind::Host(callback, params as nat, results as nat),
        ),
{
    let params = vec![wasmtime::ValType::I32; params];
    let results = vec![wasmtime::ValType::I32; results];
    let ty = wasmtime::FuncType::new(store.engine(), params, results);
    wasmtime::Func::new(
        &mut *store,
        ty,
        move |mut caller, args, results| run_callback(callback, &mut caller, args, results),
    )
}

/// `wasmtime::Engine::same`: whether a module was compiled with the engine of a
/// store. An engine is where its configuration is, not what that says.
#[verifier::external_body]
pub(crate) fn same_engine(store: &wasmtime::Store<State>, module: &wasmtime::Module) -> (same: bool)
    ensures
        same == (contents(*store).engine == module_engine(*module)),
{
    wasmtime::Engine::same(store.engine(), module.engine())
}

/// `wasmtime::Instance::new`: instantiates a module of the store's own engine,
/// which may run code of it. The instance exports what the module does.
/// Host functions that this code calls find the store ready for them. Nothing
/// else gets at the data of the store meanwhile, so what all host functions keep
/// of it is kept.
#[verifier::external_body]
pub(crate) fn instantiate_module(
    store: &mut wasmtime::Store<State>,
    module: &wasmtime::Module,
    imports: &[Import],
) -> (instance: Result<wasmtime::Instance, wasmtime::Error>)
    requires
        forall|i: int|
            0 <= i < imports@.len() ==> contents(*old(store)).owns(#[trigger] imports@[i]),
        contents(*old(store)).engine == module_engine(*module),
        callback_ready(contents(*old(store))),
    ensures
        state_kept(contents(*old(store)).state, contents(*final(store)).state),
        contents(*old(store)).grows_to(contents(*final(store))),
        instantiation_leads_to(
            contents(*old(store)),
            *module,
            imports@,
            match instance {
                Ok(instance) => Ok(instance),
                Err(error) => Err(error_message(error)),
            },
            contents(*final(store)),
        ),
        instance matches Ok(instance) ==> contents(*final(store)).instances.contains_key(instance)
            && forall|name: Seq<char>|
            #[trigger] contents(*final(store)).instances[instance].contains_key(name)
                == wasm_exports(module_source(*module)).contains(name),
{
    let imports: Vec<wasmtime::Extern> = imports.iter().map(
        |import|
            match import {
                Import::Func(func) => wasmtime::Extern::Func(*func),
                Import::Global(global) => wasmtime::Extern::Global(*global),
                Import::Table(table) => wasmtime::Extern::Table(*table),
                Import::Memory(memory) => wasmtime::Extern::Memory(*memory),
            },
    ).collect();
    wasmtime::Instance::new(&mut *store, module, &imports)
}

/// `wasmtime::Instance::get_export`: what an instance exports under a name.
#[verifier::external_body]
pub(crate) fn get_export(
    store: &mut wasmtime::Store<State>,
    instance: wasmtime::Instance,
    name: &str,
) -> (export: Option<Export>)
    requires
        contents(*old(store)).instances.contains_key(instance),
    ensures
        contents(*final(store)) == contents(*old(store)),
        export == if contents(*old(store)).instances[instance].contains_key(name@) {
            Some(contents(*old(store)).instances[instance][name@])
        } else {
            None
        },
        export matches Some(Export::Func(func)) ==> contents(*final(store)).funcs.contains_key(func),
        export matches Some(Export::Global(global)) ==> contents(
            *final(store),
        ).globals.contains_key(global),
{
    instance.get_export(&mut *store, name).map(
        |export|
            match export {
                wasmtime::Extern::Func(func) => Export::Func(func),
                wasmtime::Extern::Global(global) => Export::Global(global),
                _ => Export::Other,
            },
    )
}

/// `wasmtime::Func::call`: calls a function with 32-bit integers. It returns
/// when the Wasm code does; an argument or a result that does not fit the
/// function's type is an error. Host functions that the code calls find the
/// store ready for them. Nothing else gets at the data of the store meanwhile, so
/// what all host functions keep of it is kept.
#[verifier::external_body]
pub(crate) fn call_function(
    store: &mut wasmtime::Store<State>,
    func: wasmtime::Func,
    args: &[i32],
    result_count: usize,
) -> (outcome: Result<Vec<Option<i32>>, wasmtime::Error>)
    requires
        contents(*old(store)).funcs.contains_key(func),
        callback_ready(contents(*old(store))),
    ensures
        state_kept(contents(*old(store)).state, contents(*final(store)).state),
        contents(*old(store)).grows_to(contents(*final(store))),
        outcome matches Ok(values) ==> values@.len() == result_count,
        call_leads_to(
            contents(*old(store)),
            func,
            args@,
            result_count as nat,
            match outcome {
                Ok(values) => Ok(values@),
                Err(error) => Err(error_message(error)),
            },
            contents(*final(store)),
        ),
{
    let args: Vec<wasmtime::Val> = args.iter().map(|arg| wasmtime::Val::I32(*arg)).collect();
    let mut results = vec![wasmtime::Val::I32(0); result_count];
    func.call(&mut *store, &args, &mut results)?;
    Ok(results.iter().map(|result| result.i32()).collect())
}

/// The text of a `wasmtime::Error`, by its `Display`.
#[verifier::external_body]
pub(crate) fn error_text(error: &wasmtime::Error) -> (text: String)
    ensures
        text@ == error_message(*error),
{
    format!("{error}")
}

/// `wasmtime::Error::msg`: an error with the given text.
#[verifier::external_body]
pub(crate) fn new_error(message: &str) -> (error: wasmtime::Error)
    ensures
        error_message(error) == message@,
{
    wasmtime::Error::msg(message.to_string())
}

/// `wasmtime::Val::i32`: the 32-bit integer that a value is, where it is one.
#[verifier::external_body]
pub(crate) fn val_to_i32(val: &wasmtime::Val) -> (value: Option<i32>)
    ensures
        value == val_i32(*val),
{
    val.i32()
}

/// `wasmtime::Val::I32`: a 32-bit integer as a value.
#[verifier::external_body]
pub(crate) fn val_from_i32(value: i32) -> (val: wasmtime::Val)
    ensures
        val_i32(val) == Some(value),
{
    wasmtime::Val::I32(value)
}

} // verus!
