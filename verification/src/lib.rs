//! A verified store for tree-sitter grammars compiled to WebAssembly.

pub mod api;
pub mod api_laws;
pub mod bridge;
pub mod bytes;
pub mod callback_laws;
pub mod callbacks;
pub mod call_laws;
pub mod calls;
pub mod copy_laws;
pub mod copy_out;
pub mod dylink;
pub mod dylink_laws;
pub mod engine;
pub mod error;
pub mod language;
pub mod language_id;
pub mod laws;
pub mod layout;
pub mod lexer;
pub mod load;
pub mod load_laws;
pub mod memory;
pub mod module;
pub mod reading;
pub mod record_laws;
pub mod records;
pub mod refusal_laws;
pub mod runtime;
pub mod section_laws;
pub mod setup;
pub mod setup_laws;
pub mod statics;
pub mod stdlib;
pub mod symbol_laws;
pub mod text;
