//! What a store offers to the modules in it, and the calls that a parser makes
//! into them.

use vstd::prelude::*;

use crate::callbacks::HostCallback;
use crate::engine::{is_host_func, BuiltinFunctions, State, StoreInner};
use crate::runtime::{contents, new_global, new_host_function, GlobalKind, Import, StoreContents};
use crate::text::same_text;

verus! {

/// Whether only functions were added.
pub open spec fn adds_funcs(before: StoreContents, after: StoreContents) -> bool {
    &&& after == (StoreContents { funcs: after.funcs, ..before })
    &&& before.grows_to(after)
}

/// Whether only globals were added.
pub open spec fn adds_globals(before: StoreContents, after: StoreContents) -> bool {
    &&& after == (StoreContents { globals: after.globals, ..before })
    &&& before.grows_to(after)
}

/// Whether `funcs` are the five lexer functions, in the order of their slots in
/// the lexer object.
pub open spec fn are_lexer_functions(store: StoreContents, funcs: Seq<wasmtime::Func>) -> bool {
    &&& funcs.len() == 5
    &&& is_host_func(store, funcs[0], HostCallback::LexerAdvance, 2, 0)
    &&& is_host_func(store, funcs[1], HostCallback::LexerMarkEnd, 1, 0)
    &&& is_host_func(store, funcs[2], HostCallback::LexerGetColumn, 1, 1)
    &&& is_host_func(store, funcs[3], HostCallback::LexerIsAtIncludedRangeStart, 1, 1)
    &&& is_host_func(store, funcs[4], HostCallback::LexerEof, 1, 1)
}

/// Creates the five lexer functions, in the order of their slots in the lexer
/// object.
pub fn create_lexer_functions(store: &mut wasmtime::Store<State>) -> (funcs: [wasmtime::Func; 5])
    ensures
        adds_funcs(contents(*old(store)), contents(*final(store))),
        are_lexer_functions(contents(*final(store)), funcs@),
{
    let advance = new_host_function(store, HostCallback::LexerAdvance, 2, 0);
    let mark_end = new_host_function(store, HostCallback::LexerMarkEnd, 1, 0);
    let get_column = new_host_function(store, HostCallback::LexerGetColumn, 1, 1);
    let is_at_included_range_start = new_host_function(
        store,
        HostCallback::LexerIsAtIncludedRangeStart,
        1,
        1,
    );
    let eof = new_host_function(store, HostCallback::LexerEof, 1, 1);
    [advance, mark_end, get_column, is_at_included_range_start, eof]
}

/// Creates the host functions that modules may import: those that abort
/// (`proc_exit`, `abort`, `__assert_fail`), those that do nothing
/// (`__cxa_atexit`, `args_get`, `args_sizes_get`,
/// `emscripten_notify_memory_growth`), and the debug message hook.
pub fn create_builtin_functions(store: &mut wasmtime::Store<State>) -> (funcs: BuiltinFunctions)
    ensures
        adds_funcs(contents(*old(store)), contents(*final(store))),
        funcs.wf(contents(*final(store))),
        funcs.reset_heap is None,
{
    let proc_exit = new_host_function(store, HostCallback::Abort, 1, 0);
    let abort = new_host_function(store, HostCallback::Abort, 0, 0);
    let assert_fail = new_host_function(store, HostCallback::Abort, 4, 0);
    let notify_memory_growth = new_host_function(store, HostCallback::Noop, 1, 0);
    let debug_message = new_host_function(store, HostCallback::DebugMessage, 2, 0);
    let at_exit = new_host_function(store, HostCallback::Noop, 3, 1);
    let args_get = new_host_function(store, HostCallback::Noop, 2, 1);
    let args_sizes_get = new_host_function(store, HostCallback::Noop, 2, 1);
    BuiltinFunctions {
        reset_heap: None,
        proc_exit,
        abort,
        assert_fail,
        notify_memory_growth,
        debug_message,
        at_exit,
        args_get,
        args_sizes_get,
    }
}

/// Whether a store provides something to modules under `name`, besides the
/// stdlib.
pub open spec fn is_builtin(name: Seq<char>) -> bool {
    ||| name == "__memory_base"@
    ||| name == "__table_base"@
    ||| name == "__stack_pointer"@
    ||| name == "__indirect_function_table"@
    ||| name == "memory"@
    ||| name == "__assert_fail"@
    ||| name == "__cxa_atexit"@
    ||| name == "args_get"@
    ||| name == "args_sizes_get"@
    ||| name == "abort"@
    ||| name == "proc_exit"@
    ||| name == "emscripten_notify_memory_growth"@
    ||| name == "tree_sitter_debug_message"@
}

/// What a store provides to a module under a name.
pub enum BuiltinImport {
    /// A new constant: where the module's static data is placed.
    MemoryBase,
    /// A new constant: where the module's table entries are placed.
    TableBase,
    /// Something that the store has.
    Item(Import),
}

/// What `inner` provides to modules under `name`, besides the stdlib.
pub open spec fn builtin_import(inner: StoreInner, name: Seq<char>) -> Option<BuiltinImport> {
    if name == "__memory_base"@ {
        Some(BuiltinImport::MemoryBase)
    } else if name == "__table_base"@ {
        Some(BuiltinImport::TableBase)
    } else if name == "__stack_pointer"@ {
        Some(BuiltinImport::Item(Import::Global(inner.stack_pointer_global)))
    } else if name == "__indirect_function_table"@ {
        Some(BuiltinImport::Item(Import::Table(inner.table)))
    } else if name == "memory"@ {
        Some(BuiltinImport::Item(Import::Memory(inner.memory)))
    } else if name == "__assert_fail"@ {
        Some(BuiltinImport::Item(Import::Func(inner.builtin_fns.assert_fail)))
    } else if name == "__cxa_atexit"@ {
        Some(BuiltinImport::Item(Import::Func(inner.builtin_fns.at_exit)))
    } else if name == "args_get"@ {
        Some(BuiltinImport::Item(Import::Func(inner.builtin_fns.args_get)))
    } else if name == "args_sizes_get"@ {
        Some(BuiltinImport::Item(Import::Func(inner.builtin_fns.args_sizes_get)))
    } else if name == "abort"@ {
        Some(BuiltinImport::Item(Import::Func(inner.builtin_fns.abort)))
    } else if name == "proc_exit"@ {
        Some(BuiltinImport::Item(Import::Func(inner.builtin_fns.proc_exit)))
    } else if name == "emscripten_notify_memory_growth"@ {
        Some(BuiltinImport::Item(Import::Func(inner.builtin_fns.notify_memory_growth)))
    } else if name == "tree_sitter_debug_message"@ {
        Some(BuiltinImport::Item(Import::Func(inner.builtin_fns.debug_message)))
    } else {
        None
    }
}

/// Whether `import` is a constant with the given value that is new in a store
/// since it held `before`.
pub open spec fn is_new_constant(
    before: StoreContents,
    store: StoreContents,
    import: Import,
    value: i32,
) -> bool {
    import matches Import::Global(global) && !before.globals.contains_key(global)
        && store.globals.contains_key(global) && store.globals[global] == GlobalKind::Constant(
        value,
    )
}

/// Whether `import` is what `inner` provides under `name`, besides the stdlib, in
/// a store that holds `store` by then.
pub open spec fn provides(
    inner: StoreInner,
    store: StoreContents,
    name: Seq<char>,
    import: Import,
) -> bool {
    match builtin_import(inner, name) {
        Some(BuiltinImport::MemoryBase) => is_new_constant(
            inner.held(),
            store,
            import,
            inner.current_memory_offset as i32,
        ),
        Some(BuiltinImport::TableBase) => is_new_constant(
            inner.held(),
            store,
            import,
            inner.current_function_table_offset as i32,
        ),
        Some(BuiltinImport::Item(item)) => import == item,
        None => false,
    }
}

/// Provides what a module imports under `name`, unless it comes from the stdlib
/// or does not exist. The two placement offsets are new constants for each
/// module.
pub fn provide_builtin_import(inner: &mut StoreInner, name: &str) -> (import: Option<Import>)
    requires
        old(inner).linked(),
    ensures
        *final(inner) == (StoreInner { store: final(inner).store, ..*old(inner) }),
        adds_globals(old(inner).held(), final(inner).held()),
        final(inner).linked(),
        import is Some == is_builtin(name@),
        import matches Some(import) ==> provides(*old(inner), final(inner).held(), name@, import)
            && final(inner).held().owns(import),
{
    if same_text(name, "__memory_base") {
        let value = inner.current_memory_offset as i32;
        Some(Import::Global(new_global(&mut inner.store, false, value)))
    } else if same_text(name, "__table_base") {
        let value = inner.current_function_table_offset as i32;
        Some(Import::Global(new_global(&mut inner.store, false, value)))
    } else if same_text(name, "__stack_pointer") {
        Some(Import::Global(inner.stack_pointer_global))
    } else if same_text(name, "__indirect_function_table") {
        Some(Import::Table(inner.table))
    } else if same_text(name, "memory") {
        Some(Import::Memory(inner.memory))
    } else if same_text(name, "__assert_fail") {
        Some(Import::Func(inner.builtin_fns.assert_fail))
    } else if same_text(name, "__cxa_atexit") {
        Some(Import::Func(inner.builtin_fns.at_exit))
    } else if same_text(name, "args_get") {
        Some(Import::Func(inner.builtin_fns.args_get))
    } else if same_text(name, "args_sizes_get") {
        Some(Import::Func(inner.builtin_fns.args_sizes_get))
    } else if same_text(name, "abort") {
        Some(Import::Func(inner.builtin_fns.abort))
    } else if same_text(name, "proc_exit") {
        Some(Import::Func(inner.builtin_fns.proc_exit))
    } else if same_text(name, "emscripten_notify_memory_growth") {
        Some(Import::Func(inner.builtin_fns.notify_memory_growth))
    } else if same_text(name, "tree_sitter_debug_message") {
        Some(Import::Func(inner.builtin_fns.debug_message))
    } else {
        None
    }
}

} // verus!
