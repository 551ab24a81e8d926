use wasm_zero::bindings::generate_bindings;

fn record(fields: &[&str]) -> Vec<u8> {
    let payload = fields.join("\u{1f}");
    let mut v = (payload.len() as u32).to_le_bytes().to_vec();
    v.extend_from_slice(payload.as_bytes());
    v
}

/// A binary whose only section holds these records. They take no more than
/// 16000 bytes.
fn binary(records: &[Vec<u8>]) -> Vec<u8> {
    let mut content = b"\x0b__wasm_zero".to_vec();
    for r in records {
        content.extend_from_slice(r);
    }
    let mut w = b"\0asm\x01\0\0\0\0".to_vec();
    w.push((content.len() % 128) as u8 | 0x80);
    w.push((content.len() / 128) as u8);
    w.extend_from_slice(&content);
    w
}

fn plain_records() -> Vec<Vec<u8>> {
    vec![
        record(&["1", "fn", "make", "P", "n\u{1e}u8"]),
        record(&["1", "struct", "P", "x\u{1e}u32", "tags\u{1e}Vec < u16 >"]),
    ]
}

fn encoding_records() -> Vec<Vec<u8>> {
    let mut all = plain_records();
    all.push(record(&["1", "fn", "shout", "String", "msg\u{1e}String"]));
    all
}

#[test]
fn plain_module_without_types() {
    let g = generate_bindings(&binary(&plain_records())).unwrap();
    assert_eq!(
        g.js,
        r##"// Auto-generated by wasm_zero. Do not edit by hand.

export const ErrorCode = Object.freeze({ Ok: 0, UnarchivingError: 254, ArchivingError: 255 });

export class WasmError extends Error {
  constructor(code) {
    super(`wasm_zero call failed with ErrorCode ${code}`);
    this.name = 'WasmError';
    this.code = code;
  }
}

export const MAX_BUFFER_SIZE = 512 * 1024;
const HEADER = 16; // archive offset; must match wasm_zero::mem::HEADER

// ---- zero-copy readers (read straight from wasm memory) ----
const __td = new TextDecoder();
function rdStr(dv, u8, a) {
  if ((u8[a] & 0xc0) !== 0x80) { // inline (SSO)
    let n = 0; while (n < 8 && u8[a + n] !== 0xff) n++;
    return __td.decode(u8.subarray(a, a + n));
  }
  const raw = dv.getUint32(a, true);
  const len = (raw & 0x3f) | ((raw & 0xffffff00) >>> 2);
  const off = dv.getInt32(a + 4, true);
  return __td.decode(u8.subarray(a + off, a + off + len));
}
function rdVec(dv, a, Ctor) { // zero-copy typed-array view
  const off = dv.getInt32(a, true), len = dv.getUint32(a + 4, true);
  return new Ctor(dv.buffer, a + off, len);
}
function rdVecOf(dv, u8, a, stride, rd) {
  const off = dv.getInt32(a, true), len = dv.getUint32(a + 4, true), b = a + off;
  const out = new Array(len);
  for (let i = 0; i < len; i++) out[i] = rd(b + i * stride);
  return out;
}

// ---- per-struct field readers ----
function decode_P(dv, u8, p) {
  return {
    x: dv.getUint32(p + 0, true),
    tags: rdVec(dv, p + 4, Uint16Array),
  };
}

export function bindWasmZero(wasm) {
  const outPtr = wasm.malloc(HEADER + MAX_BUFFER_SIZE);
  let inPtr = 0; // lazily allocated for non-scalar args
  let buf = wasm.memory.buffer, dv = new DataView(buf), u8 = new Uint8Array(buf);
  function views() { if (buf !== wasm.memory.buffer) { buf = wasm.memory.buffer; dv = new DataView(buf); u8 = new Uint8Array(buf); } }

  function invoke(shim, argCodec, argValue, directArgs) {
    if (directArgs !== null) return wasm[shim](...directArgs, outPtr);
    if (argCodec === null) return wasm[shim](outPtr);
             throw new Error('unreachable: no non-scalar args');
           }

  // Run the shim, then read the result straight from wasm memory at the
  // archive root. Struct/vec results alias the scratch buffer — valid
  // until the next call (or memory.grow); copy if you need to keep them.
  function call(shim, size, read, argCodec, argValue, directArgs) {
    const code = invoke(shim, argCodec, argValue, directArgs);
    if (code !== ErrorCode.Ok) throw new WasmError(code);
    views();
    const len = dv.getUint32(outPtr, true);
    return read(dv, u8, outPtr + HEADER + len - size);
  }

  return {
    wasm,
    make(n) { return call("__wasm_zero_make", 12, (dv, u8, p) => decode_P(dv, u8, p), null, null, [n]); },
  };
}

export async function initWasmZero(wasmUrl, imports) {
  const importObject =
    imports ?? new Proxy({}, { get: () => new Proxy({}, { get: () => () => {} }) });
  const { instance } = await WebAssembly.instantiateStreaming(fetch(wasmUrl), importObject);
  return bindWasmZero(instance.exports);
}
"##
    );
}

#[test]
fn plain_module_with_types() {
    let g = generate_bindings(&binary(&plain_records())).unwrap();
    assert_eq!(
        g.ts,
        r##"// Auto-generated by wasm_zero. Do not edit by hand.

export const ErrorCode = Object.freeze({ Ok: 0, UnarchivingError: 254, ArchivingError: 255 });

export class WasmError extends Error {
  constructor(code) {
    super(`wasm_zero call failed with ErrorCode ${code}`);
    this.name = 'WasmError';
    this.code = code;
  }
}

export const MAX_BUFFER_SIZE = 512 * 1024;
const HEADER = 16; // archive offset; must match wasm_zero::mem::HEADER

// ---- zero-copy readers (read straight from wasm memory) ----
const __td = new TextDecoder();
function rdStr(dv, u8, a) {
  if ((u8[a] & 0xc0) !== 0x80) { // inline (SSO)
    let n = 0; while (n < 8 && u8[a + n] !== 0xff) n++;
    return __td.decode(u8.subarray(a, a + n));
  }
  const raw = dv.getUint32(a, true);
  const len = (raw & 0x3f) | ((raw & 0xffffff00) >>> 2);
  const off = dv.getInt32(a + 4, true);
  return __td.decode(u8.subarray(a + off, a + off + len));
}
function rdVec(dv, a, Ctor) { // zero-copy typed-array view
  const off = dv.getInt32(a, true), len = dv.getUint32(a + 4, true);
  return new Ctor(dv.buffer, a + off, len);
}
function rdVecOf(dv, u8, a, stride, rd) {
  const off = dv.getInt32(a, true), len = dv.getUint32(a + 4, true), b = a + off;
  const out = new Array(len);
  for (let i = 0; i < len; i++) out[i] = rd(b + i * stride);
  return out;
}

// ---- per-struct field readers ----
function decode_P(dv, u8, p) {
  return {
    x: dv.getUint32(p + 0, true),
    tags: rdVec(dv, p + 4, Uint16Array),
  };
}

export interface P {
  x: number;
  tags: Uint16Array;
}

export function bindWasmZero(wasm: any) {
  const outPtr = wasm.malloc(HEADER + MAX_BUFFER_SIZE);
  let inPtr = 0; // lazily allocated for non-scalar args
  let buf = wasm.memory.buffer, dv = new DataView(buf), u8 = new Uint8Array(buf);
  function views() { if (buf !== wasm.memory.buffer) { buf = wasm.memory.buffer; dv = new DataView(buf); u8 = new Uint8Array(buf); } }

  function invoke(shim: string, argCodec: any, argValue: any, directArgs: any) {
    if (directArgs !== null) return wasm[shim](...directArgs, outPtr);
    if (argCodec === null) return wasm[shim](outPtr);
             throw new Error('unreachable: no non-scalar args');
           }

  // Run the shim, then read the result straight from wasm memory at the
  // archive root. Struct/vec results alias the scratch buffer — valid
  // until the next call (or memory.grow); copy if you need to keep them.
  function call(shim: string, size: number, read: any, argCodec: any, argValue: any, directArgs: any) {
    const code = invoke(shim, argCodec, argValue, directArgs);
    if (code !== ErrorCode.Ok) throw new WasmError(code);
    views();
    const len = dv.getUint32(outPtr, true);
    return read(dv, u8, outPtr + HEADER + len - size);
  }

  return {
    wasm,
    make(n: number): P { return call("__wasm_zero_make", 12, (dv, u8, p) => decode_P(dv, u8, p), null, null, [n]); },
  };
}

export async function initWasmZero(wasmUrl: string | URL, imports?: WebAssembly.Imports) {
  const importObject =
    imports ?? new Proxy({}, { get: () => new Proxy({}, { get: () => () => {} }) });
  const { instance } = await WebAssembly.instantiateStreaming(fetch(wasmUrl), importObject);
  return bindWasmZero(instance.exports);
}
"##
    );
}

#[test]
fn encoding_module_without_types() {
    let g = generate_bindings(&binary(&encoding_records())).unwrap();
    assert_eq!(
        g.js,
        r##"// Auto-generated by wasm_zero. Do not edit by hand.
import * as r from 'rkyv-js/encode';

export const ErrorCode = Object.freeze({ Ok: 0, UnarchivingError: 254, ArchivingError: 255 });

export class WasmError extends Error {
  constructor(code) {
    super(`wasm_zero call failed with ErrorCode ${code}`);
    this.name = 'WasmError';
    this.code = code;
  }
}

export const MAX_BUFFER_SIZE = 512 * 1024;
const HEADER = 16; // archive offset; must match wasm_zero::mem::HEADER

// ---- zero-copy readers (read straight from wasm memory) ----
const __td = new TextDecoder();
function rdStr(dv, u8, a) {
  if ((u8[a] & 0xc0) !== 0x80) { // inline (SSO)
    let n = 0; while (n < 8 && u8[a + n] !== 0xff) n++;
    return __td.decode(u8.subarray(a, a + n));
  }
  const raw = dv.getUint32(a, true);
  const len = (raw & 0x3f) | ((raw & 0xffffff00) >>> 2);
  const off = dv.getInt32(a + 4, true);
  return __td.decode(u8.subarray(a + off, a + off + len));
}
function rdVec(dv, a, Ctor) { // zero-copy typed-array view
  const off = dv.getInt32(a, true), len = dv.getUint32(a + 4, true);
  return new Ctor(dv.buffer, a + off, len);
}
function rdVecOf(dv, u8, a, stride, rd) {
  const off = dv.getInt32(a, true), len = dv.getUint32(a + 4, true), b = a + off;
  const out = new Array(len);
  for (let i = 0; i < len; i++) out[i] = rd(b + i * stride);
  return out;
}

// ---- codecs (for non-scalar argument encoding) ----
export const ArchivedP = r.struct({
  x: r.u32,
  tags: r.vec(r.u16),
});

// ---- per-function argument codecs ----
const __argCodec_shout = r.string;

// ---- per-struct field readers ----
function decode_P(dv, u8, p) {
  return {
    x: dv.getUint32(p + 0, true),
    tags: rdVec(dv, p + 4, Uint16Array),
  };
}

export function bindWasmZero(wasm) {
  const outPtr = wasm.malloc(HEADER + MAX_BUFFER_SIZE);
  let inPtr = 0; // lazily allocated for non-scalar args
  let argWriter = null; // fixed rkyv writer over the input buffer
  let buf = wasm.memory.buffer, dv = new DataView(buf), u8 = new Uint8Array(buf);
  function views() { if (buf !== wasm.memory.buffer) { buf = wasm.memory.buffer; dv = new DataView(buf); u8 = new Uint8Array(buf); argWriter = null; } }

  function invoke(shim, argCodec, argValue, directArgs) {
    if (directArgs !== null) return wasm[shim](...directArgs, outPtr);
    if (argCodec === null) return wasm[shim](outPtr);
             if (inPtr === 0) inPtr = wasm.malloc(HEADER + MAX_BUFFER_SIZE);
    views();
    if (argWriter === null) argWriter = new r.RkyvWriter({ buffer: u8.subarray(inPtr + HEADER, inPtr + HEADER + MAX_BUFFER_SIZE) });
    argWriter.reset();
    argCodec.encodeInto(argWriter, argValue); // archived in place; overflow throws RangeError
    dv.setUint32(inPtr, argWriter.pos, true);
    return wasm[shim](inPtr, outPtr);
           }

  // Run the shim, then read the result straight from wasm memory at the
  // archive root. Struct/vec results alias the scratch buffer — valid
  // until the next call (or memory.grow); copy if you need to keep them.
  function call(shim, size, read, argCodec, argValue, directArgs) {
    const code = invoke(shim, argCodec, argValue, directArgs);
    if (code !== ErrorCode.Ok) throw new WasmError(code);
    views();
    const len = dv.getUint32(outPtr, true);
    return read(dv, u8, outPtr + HEADER + len - size);
  }

  return {
    wasm,
    make(n) { return call("__wasm_zero_make", 12, (dv, u8, p) => decode_P(dv, u8, p), null, null, [n]); },
    shout(msg) { return call("__wasm_zero_shout", 8, (dv, u8, p) => rdStr(dv, u8, p), __argCodec_shout, msg, null); },
  };
}

export async function initWasmZero(wasmUrl, imports) {
  const importObject =
    imports ?? new Proxy({}, { get: () => new Proxy({}, { get: () => () => {} }) });
  const { instance } = await WebAssembly.instantiateStreaming(fetch(wasmUrl), importObject);
  return bindWasmZero(instance.exports);
}
"##
    );
}

#[test]
fn encoding_module_with_types() {
    let g = generate_bindings(&binary(&encoding_records())).unwrap();
    assert_eq!(
        g.ts,
        r##"// Auto-generated by wasm_zero. Do not edit by hand.
import * as r from 'rkyv-js/encode';

export const ErrorCode = Object.freeze({ Ok: 0, UnarchivingError: 254, ArchivingError: 255 });

export class WasmError extends Error {
  constructor(code) {
    super(`wasm_zero call failed with ErrorCode ${code}`);
    this.name = 'WasmError';
    this.code = code;
  }
}

export const MAX_BUFFER_SIZE = 512 * 1024;
const HEADER = 16; // archive offset; must match wasm_zero::mem::HEADER

// ---- zero-copy readers (read straight from wasm memory) ----
const __td = new TextDecoder();
function rdStr(dv, u8, a) {
  if ((u8[a] & 0xc0) !== 0x80) { // inline (SSO)
    let n = 0; while (n < 8 && u8[a + n] !== 0xff) n++;
    return __td.decode(u8.subarray(a, a + n));
  }
  const raw = dv.getUint32(a, true);
  const len = (raw & 0x3f) | ((raw & 0xffffff00) >>> 2);
  const off = dv.getInt32(a + 4, true);
  return __td.decode(u8.subarray(a + off, a + off + len));
}
function rdVec(dv, a, Ctor) { // zero-copy typed-array view
  const off = dv.getInt32(a, true), len = dv.getUint32(a + 4, true);
  return new Ctor(dv.buffer, a + off, len);
}
function rdVecOf(dv, u8, a, stride, rd) {
  const off = dv.getInt32(a, true), len = dv.getUint32(a + 4, true), b = a + off;
  const out = new Array(len);
  for (let i = 0; i < len; i++) out[i] = rd(b + i * stride);
  return out;
}

// ---- codecs (for non-scalar argument encoding) ----
export const ArchivedP = r.struct({
  x: r.u32,
  tags: r.vec(r.u16),
});

// ---- per-function argument codecs ----
const __argCodec_shout = r.string;

// ---- per-struct field readers ----
function decode_P(dv, u8, p) {
  return {
    x: dv.getUint32(p + 0, true),
    tags: rdVec(dv, p + 4, Uint16Array),
  };
}

export interface P {
  x: number;
  tags: Uint16Array;
}

export function bindWasmZero(wasm: any) {
  const outPtr = wasm.malloc(HEADER + MAX_BUFFER_SIZE);
  let inPtr = 0; // lazily allocated for non-scalar args
  let argWriter: r.RkyvWriter | null = null; // fixed rkyv writer over the input buffer
  let buf = wasm.memory.buffer, dv = new DataView(buf), u8 = new Uint8Array(buf);
  function views() { if (buf !== wasm.memory.buffer) { buf = wasm.memory.buffer; dv = new DataView(buf); u8 = new Uint8Array(buf); argWriter = null; } }

  function invoke(shim: string, argCodec: any, argValue: any, directArgs: any) {
    if (directArgs !== null) return wasm[shim](...directArgs, outPtr);
    if (argCodec === null) return wasm[shim](outPtr);
             if (inPtr === 0) inPtr = wasm.malloc(HEADER + MAX_BUFFER_SIZE);
    views();
    if (argWriter === null) argWriter = new r.RkyvWriter({ buffer: u8.subarray(inPtr + HEADER, inPtr + HEADER + MAX_BUFFER_SIZE) });
    argWriter.reset();
    argCodec.encodeInto(argWriter, argValue); // archived in place; overflow throws RangeError
    dv.setUint32(inPtr, argWriter.pos, true);
    return wasm[shim](inPtr, outPtr);
           }

  // Run the shim, then read the result straight from wasm memory at the
  // archive root. Struct/vec results alias the scratch buffer — valid
  // until the next call (or memory.grow); copy if you need to keep them.
  function call(shim: string, size: number, read: any, argCodec: any, argValue: any, directArgs: any) {
    const code = invoke(shim, argCodec, argValue, directArgs);
    if (code !== ErrorCode.Ok) throw new WasmError(code);
    views();
    const len = dv.getUint32(outPtr, true);
    return read(dv, u8, outPtr + HEADER + len - size);
  }

  return {
    wasm,
    make(n: number): P { return call("__wasm_zero_make", 12, (dv, u8, p) => decode_P(dv, u8, p), null, null, [n]); },
    shout(msg: string): string { return call("__wasm_zero_shout", 8, (dv, u8, p) => rdStr(dv, u8, p), __argCodec_shout, msg, null); },
  };
}

export async function initWasmZero(wasmUrl: string | URL, imports?: WebAssembly.Imports) {
  const importObject =
    imports ?? new Proxy({}, { get: () => new Proxy({}, { get: () => () => {} }) });
  const { instance } = await WebAssembly.instantiateStreaming(fetch(wasmUrl), importObject);
  return bindWasmZero(instance.exports);
}
"##
    );
}
