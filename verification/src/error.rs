//! The error vocabulary of the store.

use vstd::prelude::*;

verus! {

/// The kind of a failure, as the C interface numbers them.
pub type WasmErrorKind = u32;

/// The module bytes could not be parsed.
pub const PARSE: WasmErrorKind = 1;

/// The module could not be compiled.
pub const COMPILE: WasmErrorKind = 2;

/// The module could not be instantiated.
pub const INSTANTIATE: WasmErrorKind = 3;

/// Memory or table space could not be allocated.
pub const ALLOCATE: WasmErrorKind = 4;

/// Either a value, or the kind and the text of a failure.
pub type WasmResult<T> = Result<T, (WasmErrorKind, String)>;

} // verus!
