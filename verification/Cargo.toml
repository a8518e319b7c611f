[package]
name = "wasm-store"
version = "0.1.0"
edition = "2021"
publish = false

[dependencies]
wasmtime = { version = "=44.0.3", default-features = false, features = ["cranelift", "runtime", "std"] }

[dev-dependencies]
wat = "=1.249.0"
