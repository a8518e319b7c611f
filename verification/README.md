# wasm-store

A store for tree-sitter grammars that are compiled to WebAssembly, verified with
Verus. A store holds one `wasmtime` store with one linear memory and one function
table. Every grammar that is loaded is placed in them, one behind the other; its
static data is copied to the native heap, and its lex and scanner functions are
called from there.

`src/` is the library. Each function carries its contract.

- `runtime` holds every call into `wasmtime`, with what is relied on of it
- `engine`, `setup`, `bridge`, `callbacks`: the store, how it is made, what it
  offers to modules, and what runs when they call it
- `dylink`, `module`, `load`, `records`: from the bytes of a module to a loaded
  language and the record of its instance
- `layout`, `memory`, `statics`, `language`, `copy_out`: a language in linear
  memory, and its copy
- `lexer`, `calls`: the calls that a parser makes
- `api`: the interface, under the names that it has in C
- `laws`: what holds of all of it together
- `bytes`, `text`, `stdlib`, `error`, `language_id`: what the others build on

`tests/` runs the library against the real runtime. `app/` is the C interface:
it turns pointers into values and back.
