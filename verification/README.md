# wasm_zero

A verified library for calling functions of a WebAssembly binary from
JavaScript and TypeScript, without a glue runtime.

Functions and structs are annotated. The annotation puts a shim beside each
function and a record of each item into a custom section of the binary. A
generator reads the records and writes `bindings.ts` and `bindings.js`, which
call the shims and read their results straight from the memory of the binary.

| Path | What is there |
|------|---------------|
| `src/` | the library, with contracts that Verus proves |
| `tests/` | tests of the library, with the outside crates linked |
| `app/` | files, network, threads, raw memory, floating point |

The functions named `law_..` in `src/` state what holds of the library as a
whole.
