//! The fixed parts of a generated module.
use vstd::prelude::*;

verus! {

/// First line of every module.
pub const BANNER: &'static str = "// Auto-generated by wasm_zero. Do not edit by hand.\n";

/// Import of the argument encoder.
pub const IMPORT: &'static str = "import * as r from 'rkyv-js/encode';\n";

/// Start of the error codes.
pub const ERRORS: &'static str = "export const ErrorCode = Object.freeze({ Ok: ";

/// End of the error codes and the error that is thrown, up to the size of a buffer.
pub const ERROR_CLASS: &'static str = " });\n\
     \n\
     export class WasmError extends Error {\n\
     \x20 constructor(code) {\n\
     \x20   super(`wasm_zero call failed with ErrorCode ${code}`);\n\
     \x20   this.name = 'WasmError';\n\
     \x20   this.code = code;\n\
     \x20 }\n\
     }\n\
     \n\
     export const MAX_BUFFER_SIZE = ";

/// What is said of the header, and the readers that every module has.
pub const READERS: &'static str = "; // archive offset; must match wasm_zero::mem::HEADER\n\
     \n\
     // ---- zero-copy readers (read straight from wasm memory) ----\n\
     const __td = new TextDecoder();\n\
     function rdStr(dv, u8, a) {\n\
     \x20 if ((u8[a] & 0xc0) !== 0x80) { // inline (SSO)\n\
     \x20   let n = 0; while (n < 8 && u8[a + n] !== 0xff) n++;\n\
     \x20   return __td.decode(u8.subarray(a, a + n));\n\
     \x20 }\n\
     \x20 const raw = dv.getUint32(a, true);\n\
     \x20 const len = (raw & 0x3f) | ((raw & 0xffffff00) >>> 2);\n\
     \x20 const off = dv.getInt32(a + 4, true);\n\
     \x20 return __td.decode(u8.subarray(a + off, a + off + len));\n\
     }\n\
     function rdVec(dv, a, Ctor) { // zero-copy typed-array view\n\
     \x20 const off = dv.getInt32(a, true), len = dv.getUint32(a + 4, true);\n\
     \x20 return new Ctor(dv.buffer, a + off, len);\n\
     }\n\
     function rdVecOf(dv, u8, a, stride, rd) {\n\
     \x20 const off = dv.getInt32(a, true), len = dv.getUint32(a + 4, true), b = a + off;\n\
     \x20 const out = new Array(len);\n\
     \x20 for (let i = 0; i < len; i++) out[i] = rd(b + i * stride);\n\
     \x20 return out;\n\
     }\n\
     \n";

/// Start of the function that binds an instance, up to the type of the instance.
pub const BIND: &'static str = "export function bindWasmZero(wasm";

/// Its output buffer and the place of its input buffer.
pub const BIND_STATE: &'static str = ") {\n\
     \x20 const outPtr = wasm.malloc(HEADER + MAX_BUFFER_SIZE);\n\
     \x20 let inPtr = 0; // lazily allocated for non-scalar args\n";

/// Its views of the memory, up to what is to be forgotten when the memory grows.
pub const BIND_VIEWS: &'static str = "  let buf = wasm.memory.buffer, dv = new DataView(buf), u8 = new Uint8Array(buf);\n\
     \x20 function views() { if (buf !== wasm.memory.buffer) { buf = wasm.memory.buffer; dv = new DataView(buf); u8 = new Uint8Array(buf);";

/// Start of the function that calls a shim, up to the type of the shim name.
pub const BIND_INVOKE: &'static str = " } }\n\
     \n\
     \x20 function invoke(shim";

/// How a shim without encoded arguments is called.
pub const INVOKE_DIRECT: &'static str = ") {\n\
     \x20   if (directArgs !== null) return wasm[shim](...directArgs, outPtr);\n\
     \x20   if (argCodec === null) return wasm[shim](outPtr);\n";

/// How a shim with encoded arguments is called.
pub const INVOKE_ENCODED: &'static str = "             if (inPtr === 0) inPtr = wasm.malloc(HEADER + MAX_BUFFER_SIZE);\n\
     \x20   views();\n\
     \x20   if (argWriter === null) argWriter = new r.RkyvWriter({ buffer: u8.subarray(inPtr + HEADER, inPtr + HEADER + MAX_BUFFER_SIZE) });\n\
     \x20   argWriter.reset();\n\
     \x20   argCodec.encodeInto(argWriter, argValue); // archived in place; overflow throws RangeError\n\
     \x20   dv.setUint32(inPtr, argWriter.pos, true);\n\
     \x20   return wasm[shim](inPtr, outPtr);\n";

/// What stands in its place where no function needs it.
pub const INVOKE_NEVER: &'static str = "             throw new Error('unreachable: no non-scalar args');\n";

/// Start of the function that calls a shim and reads its result.
pub const CALL: &'static str = "           }\n\
     \n\
     \x20 // Run the shim, then read the result straight from wasm memory at the\n\
     \x20 // archive root. Struct/vec results alias the scratch buffer — valid\n\
     \x20 // until the next call (or memory.grow); copy if you need to keep them.\n\
     \x20 function call(shim";

/// Its body, and the start of the bound object.
pub const CALL_BODY: &'static str = ") {\n\
     \x20   const code = invoke(shim, argCodec, argValue, directArgs);\n\
     \x20   if (code !== ErrorCode.Ok) throw new WasmError(code);\n\
     \x20   views();\n\
     \x20   const len = dv.getUint32(outPtr, true);\n\
     \x20   return read(dv, u8, outPtr + HEADER + len - size);\n\
     \x20 }\n\
     \n\
     \x20 return {\n\
     \x20   wasm,\n";

/// Start of the function that loads a module.
pub const INIT: &'static str = "export async function initWasmZero(wasmUrl";

/// Its body.
pub const INIT_BODY: &'static str = ") {\n\
     \x20 const importObject =\n\
     \x20   imports ?? new Proxy({}, { get: () => new Proxy({}, { get: () => () => {} }) });\n\
     \x20 const { instance } = await WebAssembly.instantiateStreaming(fetch(wasmUrl), importObject);\n\
     \x20 return bindWasmZero(instance.exports);\n\
     }\n";

/// Start of the declaration of the argument writer.
pub const WRITER: &'static str = "  let argWriter";

/// Its end.
pub const WRITER_END: &'static str = " = null; // fixed rkyv writer over the input buffer\n";

} // verus!
