use wasm_store::callbacks::{callback_abort, callback_noop};
use wasmtime::Val;

fn failure(result: Result<(), wasmtime::Error>) -> String {
    result.expect_err("an error").to_string()
}

#[test]
fn aborting_is_an_error() {
    assert_eq!(failure(callback_abort()), "Wasm module called abort");
}

#[test]
fn doing_nothing_keeps_the_first_slot() {
    let mut results = [Val::I64(0), Val::I64(1)];
    assert!(callback_noop(&[Val::I32(-7), Val::I32(8)], &mut results).is_ok());
    assert_eq!(results[0].i32(), Some(-7));
    assert_eq!(results[1].i64(), Some(1));
    assert!(callback_noop(&[Val::I32(-7)], &mut []).is_ok());
    assert!(callback_noop(&[], &mut []).is_ok());
}

#[test]
fn doing_nothing_needs_an_argument_for_a_result() {
    let mut results = [Val::I64(5)];
    assert_eq!(failure(callback_noop(&[], &mut results)), "host function without arguments");
    assert_eq!(
        failure(callback_noop(&[Val::I64(1)], &mut results)),
        "host function without arguments"
    );
    assert_eq!(results[0].i64(), Some(5));
}
