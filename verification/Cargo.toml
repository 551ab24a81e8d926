[package]
name = "wasm_zero"
version = "0.1.0"
edition = "2021"
publish = false

[dependencies]
axum = "=0.8.9"
bytecheck = "=0.8.3"
crossbeam-channel = "=0.5.17"
# Without the lexer of the compiler: tokens are the same inside and outside of a
# procedural macro.
proc-macro2 = { version = "=1.0.107", default-features = false }
quote = { version = "=1.0.47", default-features = false }
rayon = "=1.12.0"
rkyv = { version = "=0.8.18", default-features = false, features = ["alloc", "bytecheck", "pointer_width_32"] }
syn = { version = "=2.0.119", default-features = false, features = ["clone-impls", "full", "parsing", "printing"] }
tokio = { version = "=1.54.1", features = ["macros", "net", "rt-multi-thread"] }
tower-http = { version = "=0.6.11", features = ["fs"] }
