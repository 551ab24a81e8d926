use wasm_zero::bindings::generate_bindings;
use wasm_zero::bindings::try_generate_bindings;
use wasm_zero::bindings::NO_METADATA;
use wasm_zero::wasm::extract_meta_section;
use wasm_zero::wasm::for_each_section;
use wasm_zero::wasm::strip_meta;

/// One metadata record with these fields.
fn record(fields: &[&str]) -> Vec<u8> {
    let payload = fields.join("\u{1f}");
    let mut v = (payload.len() as u32).to_le_bytes().to_vec();
    v.extend_from_slice(payload.as_bytes());
    v
}

fn pair(name: &str, ty: &str) -> String {
    format!("{name}\u{1e}{ty}")
}

fn leb(mut v: u32, out: &mut Vec<u8>) {
    loop {
        let b = (v & 0x7f) as u8;
        v >>= 7;
        if v == 0 {
            out.push(b);
            break;
        }
        out.push(b | 0x80);
    }
}

fn custom(name: &str, data: &[u8], out: &mut Vec<u8>) {
    let mut payload = Vec::new();
    leb(name.len() as u32, &mut payload);
    payload.extend_from_slice(name.as_bytes());
    payload.extend_from_slice(data);
    out.push(0);
    leb(payload.len() as u32, out);
    out.extend_from_slice(&payload);
}

/// A binary with a metadata section and an unrelated custom section.
fn fake_wasm(blob: &[u8]) -> Vec<u8> {
    let mut w = b"\0asm\x01\0\0\0".to_vec();
    custom("producers", b"whatever", &mut w);
    custom("__wasm_zero", blob, &mut w);
    w
}

fn sample() -> Vec<u8> {
    let mut blob = Vec::new();
    blob.extend(record(&[
        "1",
        "struct",
        "Person",
        &pair("name", "String"),
        &pair("age", "u32"),
        &pair("email", "Option<String>"),
        &pair("scores", "Vec<u32>"),
    ]));
    blob.extend(record(&["1", "fn", "get_adult_person", "Person"]));
    blob.extend(record(&["1", "fn", "greet", "String"]));
    blob.extend(record(&["1", "fn", "add", "i32", &pair("a", "i32"), &pair("b", "i32")]));
    blob.extend(record(&["1", "fn", "tick", "()"]));
    blob.extend(record(&["1", "fn", "nums", "Vec<u32>"]));
    blob
}

#[test]
fn extracts_custom_section() {
    let wasm = fake_wasm(&sample());
    let blob = extract_meta_section(&wasm).unwrap();
    assert_eq!(blob, sample());
}

#[test]
fn struct_field_offsets() {
    let g = generate_bindings(&fake_wasm(&sample())).unwrap();
    // name@0(8) age@8(4) email@12(Option<String>=12) scores@24(8)
    assert!(g.js.contains("name: rdStr(dv, u8, p + 0)"));
    assert!(g.js.contains("age: dv.getUint32(p + 8, true)"));
    assert!(g.js.contains("email: (u8[p + 12] === 0 ? null : rdStr(dv, u8, p + 12 + 4))"));
    assert!(g.js.contains("scores: rdVec(dv, p + 24, Uint32Array)"));
    assert!(!g.js.contains("import * as r from 'rkyv-js'"));
}

#[test]
fn methods() {
    let g = generate_bindings(&fake_wasm(&sample())).unwrap();
    assert!(g.js.contains("add(a, b) { return wasm[\"__wasm_zero_add\"](a, b); }"));
    assert!(g.js.contains("tick() { wasm[\"__wasm_zero_tick\"](); }"));
    assert!(g.js.contains(
        "get_adult_person() { return call(\"__wasm_zero_get_adult_person\", 32, (dv, u8, p) => decode_Person(dv, u8, p), null, null, null); }"
    ));
    assert!(g.js.contains(
        "nums() { return call(\"__wasm_zero_nums\", 8, (dv, u8, p) => rdVec(dv, p, Uint32Array), null, null, null); }"
    ));
    assert!(g.ts.contains("export interface Person {"));
    assert!(g.ts.contains("scores: Uint32Array;"));
    assert!(g.ts.contains("email: string | null;"));
    assert!(!g.js.contains("ignored"));
}

#[test]
fn non_scalar_arg_uses_rkyv() {
    let mut blob = Vec::new();
    blob.extend(record(&["1", "struct", "P", &pair("x", "u32")]));
    blob.extend(record(&["1", "fn", "shout", "String", &pair("msg", "String")]));
    let g = generate_bindings(&fake_wasm(&blob)).unwrap();
    assert!(g.js.contains("import * as r from 'rkyv-js/encode'"));
    assert!(g.js.contains("const __argCodec_shout = r.string;"));
    assert!(g.js.contains(
        "shout(msg) { return call(\"__wasm_zero_shout\", 8, (dv, u8, p) => rdStr(dv, u8, p), __argCodec_shout, msg, null); }"
    ));
    assert!(g.js.contains("argCodec.encodeInto(argWriter, argValue)"));
    assert!(g.js.contains("argWriter = new r.RkyvWriter({ buffer: u8.subarray(inPtr + HEADER, inPtr + HEADER + MAX_BUFFER_SIZE) })"));
    assert!(g.js.contains("dv.setUint32(inPtr, argWriter.pos, true)"));
}

#[test]
fn multi_arg_codec_is_a_hoisted_tuple() {
    let mut blob = Vec::new();
    blob.extend(record(&[
        "1",
        "fn",
        "send",
        "u32",
        &pair("tags", "Vec<u32>"),
        &pair("note", "String"),
    ]));
    let g = generate_bindings(&fake_wasm(&blob)).unwrap();
    assert!(g.js.contains("const __argCodec_send = r.tuple(r.vec(r.u32), r.string);"));

    let mut scalar_blob = Vec::new();
    scalar_blob.extend(record(&["1", "fn", "add", "i32", &pair("a", "i32"), &pair("b", "i32")]));
    let scalar = generate_bindings(&fake_wasm(&scalar_blob)).unwrap();
    assert!(!scalar.js.contains("rkyv-js"));
    assert!(!scalar.js.contains("argWriter"));
}

#[test]
fn strip_removes_only_the_meta_section() {
    let wasm = fake_wasm(&sample());
    let stripped = strip_meta(&wasm).unwrap();
    assert!(extract_meta_section(&stripped).unwrap().is_empty());
    assert_eq!(&stripped[..8], &wasm[..8]);
    assert!(stripped.windows(b"producers".len()).any(|w| w == b"producers"));
    assert!(stripped.len() < wasm.len());
}

#[test]
fn version_mismatch_is_an_error() {
    let blob = record(&["9", "fn", "f", "u32"]);
    let err = generate_bindings(&fake_wasm(&blob)).unwrap_err();
    assert!(err.contains("version"), "{err}");
}

#[test]
fn missing_section_is_an_error() {
    let err = generate_bindings(b"\0asm\x01\0\0\0").unwrap_err();
    assert!(err.contains("__wasm_zero"), "{err}");
}

#[test]
fn types_with_token_spaces_parse() {
    let blob = record(&["1", "fn", "nums", "Vec < u32 >"]);
    let g = generate_bindings(&fake_wasm(&blob)).unwrap();
    assert!(g.js.contains("rdVec(dv, p, Uint32Array)"));
}

#[test]
fn stripping_twice_changes_nothing_more() {
    let once = strip_meta(&fake_wasm(&sample())).unwrap();
    assert_eq!(strip_meta(&once).unwrap(), once);
    let mut want = b"\0asm\x01\0\0\0".to_vec();
    custom("producers", b"whatever", &mut want);
    assert_eq!(once, want);
}

#[test]
fn a_stripped_binary_has_no_bindings() {
    let stripped = strip_meta(&fake_wasm(&sample())).unwrap();
    assert_eq!(generate_bindings(&stripped).unwrap_err(), NO_METADATA);
}

#[test]
fn both_modules_start_alike() {
    let g = generate_bindings(&fake_wasm(&sample())).unwrap();
    let end = g.js.find("export function bindWasmZero").unwrap();
    assert!(g.ts.starts_with(&g.js[..end]));
    assert!(g.js[..end].contains("function decode_Person(dv, u8, p) {"));
}

#[test]
fn sections_of_other_kinds_survive() {
    let mut w = b"\0asm\x01\0\0\0".to_vec();
    w.extend_from_slice(&[1, 4, 1, 0x60, 0, 0]);
    custom("__wasm_zero", b"abc", &mut w);
    w.extend_from_slice(&[3, 2, 1, 0]);
    custom("__wasm_zero", b"def", &mut w);
    assert_eq!(extract_meta_section(&w).unwrap(), b"abcdef");
    assert_eq!(
        strip_meta(&w).unwrap(),
        b"\0asm\x01\0\0\0\x01\x04\x01\x60\0\0\x03\x02\x01\0".to_vec()
    );
}

#[test]
fn malformed_binaries_are_errors() {
    assert_eq!(strip_meta(b"\0as").unwrap_err(), "not a wasm binary");
    assert_eq!(strip_meta(b"\0asm\x01\0\0\0\x01").unwrap_err(), "truncated wasm (leb128)");
    assert_eq!(
        strip_meta(b"\0asm\x01\0\0\0\x01\xff\xff\xff\xff\xff\x01").unwrap_err(),
        "leb128 overflow"
    );
    assert_eq!(strip_meta(b"\0asm\x01\0\0\0\x01\x09ab").unwrap_err(), "truncated wasm section");
}

fn error_of(blob: &[u8]) -> String {
    generate_bindings(&fake_wasm(blob)).unwrap_err()
}

#[test]
fn malformed_records_are_errors() {
    assert_eq!(error_of(&[1, 0]), "truncated metadata record header");
    assert_eq!(error_of(&[9, 0, 0, 0, b'1']), "truncated metadata record");
    assert_eq!(
        error_of(&[1, 0, 0, 0, 0xff]),
        "non-utf8 metadata record: invalid utf-8 sequence of 1 bytes from index 0"
    );
    assert_eq!(
        error_of(&record(&["9", "fn", "f", "u32"])),
        "metadata version `9` doesn't match this wasm_zero_build (expected `1`) — rebuild with matching crate versions"
    );
    assert_eq!(error_of(&record(&["1", "fn"])), "metadata record missing item name");
    assert_eq!(error_of(&record(&["1", "fn", ""])), "metadata record missing item name");
    assert_eq!(error_of(&record(&["1", "fn", "f"])), "metadata for fn `f` missing return type");
    assert_eq!(error_of(&record(&["1", "enum", "E"])), "unknown metadata record kind `enum`");
    assert_eq!(
        error_of(&record(&["1", "fn", "f", "u32", "x"])),
        "malformed name/type pair `x` in metadata"
    );
    let said = syn::parse_str::<syn::Type>("<").map(|_| ()).unwrap_err();
    assert_eq!(
        error_of(&record(&["1", "fn", "f", "<"])),
        format!("bad type `<` in metadata: {said}")
    );
    assert_eq!(error_of(&[]), NO_METADATA);
}

#[test]
fn types_that_cannot_be_rendered_give_nothing() {
    for ty in ["[u8 ; N]", "[u8 ; 2 + 2]", "(u8 , Nope)", "Nope", "Vec", "HashMap < u8 , u8 >"] {
        let blob = record(&["1", "fn", "f", ty]);
        assert!(try_generate_bindings(&fake_wasm(&blob)).is_none(), "{ty}");
    }
    let endless = record(&["1", "struct", "S", &pair("s", "Option<S>")]);
    assert!(try_generate_bindings(&fake_wasm(&endless)).is_none());
    let boxed = record(&["1", "struct", "S", &pair("s", "Option<Box<S>>")]);
    let g = try_generate_bindings(&fake_wasm(&boxed)).unwrap().unwrap();
    assert!(g.js.contains(
        "    s: (u8[p + 0] === 0 ? null : decode_S(dv, u8, (p + 0 + 4) + dv.getInt32(p + 0 + 4, true))),\n"
    ));
    let bad = record(&["9", "fn", "f", "u32"]);
    assert!(try_generate_bindings(&fake_wasm(&bad)).unwrap().is_err());
}

#[test]
fn the_order_of_records_does_not_matter() {
    let mut forward = record(&["1", "fn", "a", "u8"]);
    forward.extend(record(&["1", "struct", "Z", &pair("x", "u8")]));
    forward.extend(record(&["1", "struct", "B", &pair("z", "Z")]));
    forward.extend(record(&["1", "fn", "b", "Z"]));
    let mut backward = record(&["1", "fn", "b", "Z"]);
    backward.extend(record(&["1", "struct", "B", &pair("z", "Z")]));
    backward.extend(record(&["1", "struct", "Z", &pair("x", "u8")]));
    backward.extend(record(&["1", "fn", "a", "u8"]));
    let f = generate_bindings(&fake_wasm(&forward)).unwrap();
    let b = generate_bindings(&fake_wasm(&backward)).unwrap();
    assert_eq!(f.js, b.js);
    assert_eq!(f.ts, b.ts);
    assert!(f.js.find("decode_B").unwrap() < f.js.find("function decode_Z").unwrap());
}

#[test]
fn the_later_of_two_structs_counts() {
    let mut blob = record(&["1", "struct", "S", &pair("x", "u8")]);
    blob.extend(record(&["1", "struct", "S", &pair("y", "u64")]));
    blob.extend(record(&["1", "fn", "f", "S"]));
    let g = generate_bindings(&fake_wasm(&blob)).unwrap();
    assert!(g.js.contains("y: dv.getBigUint64(p + 0, true)"));
    assert!(!g.js.contains("x: u8["));
    assert!(g.js.contains("call(\"__wasm_zero_f\", 8, "));
}

#[test]
fn arrays_and_tuples_are_read() {
    let mut blob = record(&[
        "1",
        "struct",
        "S",
        &pair("flag", "bool"),
        &pair("grid", "[[u16; 2]; 3]"),
        &pair("pair", "(u8, String)"),
    ]);
    blob.extend(record(&["1", "fn", "get", "[u32; 0x10]"]));
    blob.extend(record(&["1", "fn", "put", "(u8, f64)", &pair("s", "S")]));
    let g = generate_bindings(&fake_wasm(&blob)).unwrap();
    assert!(g.js.contains(
        "    grid: Array.from({ length: 3 }, (_, i) => ((a) => Array.from({ length: 2 }, (_, i) => ((a) => dv.getUint16(a, true))(a + i * 2)))(p + 2 + i * 4)),\n"
    ));
    assert!(g.js.contains("    pair: [u8[p + 16 + 0], rdStr(dv, u8, p + 16 + 4)],\n"));
    assert!(g.js.contains("get() { return call(\"__wasm_zero_get\", 64, "));
    assert!(g.js.contains(
        "put(s) { return call(\"__wasm_zero_put\", 16, (dv, u8, p) => [u8[p + 0], dv.getFloat64(p + 8, true)], __argCodec_put, s, null); },"
    ));
    assert!(g.js.contains("  grid: r.array(r.array(r.u16, 2), 3),\n"));
    assert!(g.ts.contains("  grid: number[][];\n"));
    assert!(g.ts.contains("  pair: [number, string];\n"));
}

#[test]
fn the_module_without_types_is_the_one_with_types_without_them() {
    let blob = [
        record(&["1", "struct", "P", &pair("x", "u32")]),
        record(&["1", "fn", "put", "u8", &pair("p", "P"), &pair("n", "u8")]),
    ]
    .concat();
    let g = generate_bindings(&fake_wasm(&blob)).unwrap();
    let mut plain = g.ts.replace("export interface P {\n  x: number;\n}\n\n", "");
    for note in [
        "put(p: P, n: number): number {|put(p, n) {",
        "wasm: any|wasm",
        "argWriter: r.RkyvWriter | null|argWriter",
        "shim: string|shim",
        "size: number|size",
        "read: any|read",
        "argCodec: any|argCodec",
        "argValue: any|argValue",
        "directArgs: any|directArgs",
        "wasmUrl: string | URL|wasmUrl",
        "imports?: WebAssembly.Imports|imports",
    ] {
        let (with, without) = note.rsplit_once('|').unwrap();
        assert!(plain.contains(with), "{with}");
        plain = plain.replace(with, without);
    }
    assert_eq!(plain, g.js);
}

#[test]
fn names_that_are_not_plain_are_escaped() {
    let g = generate_bindings(&fake_wasm(&record(&["1", "fn", "a\"b", "u8"]))).unwrap();
    assert!(g.js.contains("return wasm[\"__wasm_zero_a\\\"b\"]();"));
}

#[test]
fn a_whole_method_of_each_kind() {
    // Where the result is nothing there is nothing to read.
    let mut quiet = record(&["1", "fn", "log", "()", &pair("msg", "String")]);
    quiet.extend(record(&["1", "fn", "put", "()", &pair("c", "char"), &pair("n", "u8")]));
    let g = generate_bindings(&fake_wasm(&quiet)).unwrap();
    assert!(g.ts.contains(
        "    log(msg: string): void { const code = invoke(\"__wasm_zero_log\", __argCodec_log, msg, null); if (code !== ErrorCode.Ok) throw new WasmError(code); },\n"
    ));
    assert!(g.js.contains(
        "    put(c, n) { const code = invoke(\"__wasm_zero_put\", __argCodec_put, [c, n], null); if (code !== ErrorCode.Ok) throw new WasmError(code); },\n"
    ));
    assert!(g.js.contains("const __argCodec_put = r.tuple(r.char, r.u8);"));
    let mut blob = record(&["1", "fn", "yes", "bool"]);
    blob.extend(record(&["1", "fn", "pick", "Vec<String>", &pair("i", "u8"), &pair("j", "f64")]));
    blob.extend(record(&["1", "fn", "send", "u32", &pair("a", "Vec<u8>"), &pair("b", "u8")]));
    let g = generate_bindings(&fake_wasm(&blob)).unwrap();
    assert!(g.ts.contains("    yes(): boolean { return wasm[\"__wasm_zero_yes\"]() !== 0; },\n"));
    assert!(g.ts.contains(
        "    pick(i: number, j: number): string[] { return call(\"__wasm_zero_pick\", 8, (dv, u8, p) => rdVecOf(dv, u8, p, 8, (a) => rdStr(dv, u8, a)), null, null, [i, j]); },\n"
    ));
    assert!(g.ts.contains(
        "    send(a: Uint8Array, b: number): number { return call(\"__wasm_zero_send\", 4, (dv, u8, p) => dv.getUint32(p, true), __argCodec_send, [a, b], null); },\n"
    ));
    assert!(g.js.contains("    yes() { return wasm[\"__wasm_zero_yes\"]() !== 0; },\n"));
}

#[test]
fn walks_hand_on_what_comes_before_a_fault() {
    let wasm = [0, b'a', b's', b'm', 1, 0, 0, 0, 1, 1, 9, 1, 5, 0];
    let (met, end) = for_each_section(&wasm);
    assert_eq!(end.unwrap_err(), "truncated wasm section");
    assert_eq!(met.len(), 2);
    assert_eq!(met[0].bytes, &wasm[..8]);
    assert_eq!(met[0].meta, None);
    assert_eq!(met[1].bytes, &[1, 1, 9]);
    assert_eq!(met[1].meta, None);

    let (met, end) = for_each_section(&wasm[..11]);
    assert!(end.is_ok());
    assert_eq!(met.len(), 2);

    let (met, end) = for_each_section(b"\0asm");
    assert_eq!(end.unwrap_err(), "not a wasm binary");
    assert!(met.is_empty());

    let binary = fake_wasm(&[1, 2, 3]);
    let (met, end) = for_each_section(&binary);
    assert!(end.is_ok());
    let bytes: Vec<u8> = met.iter().flat_map(|s| s.bytes.iter().copied()).collect();
    assert_eq!(bytes, binary);
    assert!(met.iter().any(|s| s.meta == Some(&[1, 2, 3][..])));
}
