use wasm_zero::layout::align_up;
use wasm_zero::layout::archived;
use wasm_zero::layout::scalar_size_align;
use wasm_zero::meta::parse_records;
use wasm_zero::meta::parse_ty;
use wasm_zero::meta::StructMeta;
use wasm_zero::expr::codec_expr;
use wasm_zero::expr::numeric_ctor;
use wasm_zero::expr::read_field;
use wasm_zero::expr::ts_type;
use wasm_zero::text::decimal_text;
use wasm_zero::text::join_texts;
use wasm_zero::text::less;
use wasm_zero::text::split_text;
use wasm_zero::ty::path_parts;
use wasm_zero::ty::unref;

fn layout_of(ty: &str, structs: &Vec<StructMeta>) -> Option<(u32, u32)> {
    archived(&parse_ty(ty).unwrap(), structs)
}

fn size_align<T>() -> Option<(u32, u32)> {
    Some((core::mem::size_of::<T>() as u32, core::mem::align_of::<T>() as u32))
}

#[test]
fn layouts_are_those_of_the_archives() {
    let none = Vec::new();
    assert_eq!(layout_of("bool", &none), size_align::<rkyv::Archived<bool>>());
    assert_eq!(layout_of("u8", &none), size_align::<rkyv::Archived<u8>>());
    assert_eq!(layout_of("i16", &none), size_align::<rkyv::Archived<i16>>());
    assert_eq!(layout_of("u32", &none), size_align::<rkyv::Archived<u32>>());
    assert_eq!(layout_of("usize", &none), size_align::<rkyv::Archived<usize>>());
    assert_eq!(layout_of("char", &none), size_align::<rkyv::Archived<char>>());
    assert_eq!(layout_of("f64", &none), size_align::<rkyv::Archived<f64>>());
    assert_eq!(layout_of("i64", &none), size_align::<rkyv::Archived<i64>>());
    assert_eq!(layout_of("u128", &none), size_align::<rkyv::Archived<u128>>());
    assert_eq!(layout_of("String", &none), size_align::<rkyv::Archived<String>>());
    assert_eq!(layout_of("Vec<u64>", &none), size_align::<rkyv::Archived<Vec<u64>>>());
    assert_eq!(layout_of("Box<u64>", &none), size_align::<rkyv::Archived<Box<u64>>>());
    assert_eq!(layout_of("Option<u8>", &none), size_align::<rkyv::Archived<Option<u8>>>());
    assert_eq!(layout_of("Option<u64>", &none), size_align::<rkyv::Archived<Option<u64>>>());
    assert_eq!(
        layout_of("Option<Option<u16>>", &none),
        size_align::<rkyv::Archived<Option<Option<u16>>>>()
    );
    assert_eq!(
        layout_of("Option<String>", &none),
        size_align::<rkyv::Archived<Option<String>>>()
    );
    assert_eq!(layout_of("[u16; 5]", &none), size_align::<rkyv::Archived<[u16; 5]>>());
    assert_eq!(layout_of("[u64; 0]", &none), size_align::<rkyv::Archived<[u64; 0]>>());
    assert_eq!(
        layout_of("(u8, u64, u16)", &none),
        size_align::<rkyv::Archived<(u8, u64, u16)>>()
    );
    assert_eq!(
        layout_of("Option<(String, [u8; 3])>", &none),
        size_align::<rkyv::Archived<Option<(String, [u8; 3])>>>()
    );
    assert_eq!(layout_of("[u64; 536870911]", &none), Some((4294967288, 8)));
    assert_eq!(layout_of("[u64; 536870912]", &none), None);
    assert_eq!(layout_of("()", &none), None);
}

fn record(fields: &[&str]) -> Vec<u8> {
    let payload = fields.join("\u{1f}");
    let mut v = (payload.len() as u32).to_le_bytes().to_vec();
    v.extend_from_slice(payload.as_bytes());
    v
}

#[test]
fn structs_are_laid_out_in_order() {
    let mut blob = record(&[
        "1",
        "struct",
        "Inner",
        "a\u{1e}u8",
        "b\u{1e}u64",
        "c\u{1e}u16",
    ]);
    blob.extend(record(&["1", "struct", "Outer", "x\u{1e}u8", "i\u{1e}Inner", "y\u{1e}u8"]));
    blob.extend(record(&["1", "struct", "Empty"]));
    let m = parse_records(&blob).unwrap();
    assert_eq!(layout_of("Inner", &m.structs), Some((24, 8)));
    assert_eq!(layout_of("Outer", &m.structs), Some((40, 8)));
    assert_eq!(layout_of("Empty", &m.structs), Some((0, 1)));
    assert_eq!(layout_of("&Outer", &m.structs), Some((40, 8)));
    assert_eq!(layout_of("Missing", &m.structs), None);
    assert_eq!(layout_of("Option", &m.structs), None);
}

#[test]
fn sizes_are_rounded_up() {
    assert_eq!(align_up(0, 8), 0);
    assert_eq!(align_up(1, 8), 8);
    assert_eq!(align_up(8, 8), 8);
    assert_eq!(align_up(9, 4), 12);
    assert_eq!(scalar_size_align("f32"), Some((4, 4)));
    assert_eq!(scalar_size_align("str"), None);
}

fn read(ty: &str) -> Option<String> {
    read_field(&parse_ty(ty).unwrap(), &Vec::new(), "q")
}

#[test]
fn every_scalar_has_its_reader() {
    let expected = [
        ("bool", "(u8[q] !== 0)"),
        ("u8", "u8[q]"),
        ("i8", "dv.getInt8(q)"),
        ("u16", "dv.getUint16(q, true)"),
        ("i16", "dv.getInt16(q, true)"),
        ("u32", "dv.getUint32(q, true)"),
        ("usize", "dv.getUint32(q, true)"),
        ("i32", "dv.getInt32(q, true)"),
        ("isize", "dv.getInt32(q, true)"),
        ("u64", "dv.getBigUint64(q, true)"),
        ("i64", "dv.getBigInt64(q, true)"),
        ("f32", "dv.getFloat32(q, true)"),
        ("f64", "dv.getFloat64(q, true)"),
        ("char", "String.fromCodePoint(dv.getUint32(q, true))"),
        ("&str", "rdStr(dv, u8, q)"),
    ];
    for (ty, want) in expected {
        assert_eq!(read(ty).as_deref(), Some(want));
    }
    assert_eq!(read("u128"), None);
    assert_eq!(read("Rc<u8>").as_deref(), Some("u8[(q) + dv.getInt32(q, true)]"));
    assert_eq!(
        read("Vec<Option<u16>>").as_deref(),
        Some("rdVecOf(dv, u8, q, 4, (a) => (u8[a] === 0 ? null : dv.getUint16(a + 2, true)))")
    );
    assert_eq!(read("Vec"), None);
}

fn ts(ty: &str) -> Option<String> {
    ts_type(&parse_ty(ty).unwrap())
}

#[test]
fn types_have_their_typescript() {
    let expected = [
        ("u8", "number"),
        ("isize", "number"),
        ("u128", "bigint"),
        ("i64", "bigint"),
        ("bool", "boolean"),
        ("char", "string"),
        ("&str", "string"),
        ("Vec<u64>", "BigUint64Array"),
        ("Vec<String>", "string[]"),
        ("Vec<bool>", "boolean[]"),
        ("Option<Vec<u8>>", "Uint8Array | null"),
        ("Box<Person>", "Person"),
        ("[u8; 4]", "number[]"),
        ("(u8, String)", "[number, string]"),
        ("other::Thing", "Thing"),
    ];
    for (ty, want) in expected {
        assert_eq!(ts(ty).as_deref(), Some(want), "{ty}");
    }
    assert_eq!(ts("Option"), None);
    assert_eq!(ts("(u8, Vec)"), None);
}

fn codec(ty: &str) -> Option<String> {
    codec_expr(&parse_ty(ty).unwrap(), &Vec::new())
}

#[test]
fn types_have_their_codecs() {
    let expected = [
        ("u8", "r.u8"),
        ("char", "r.char"),
        ("usize", "r.u32"),
        ("isize", "r.i32"),
        ("String", "r.string"),
        ("Vec<bool>", "r.vec(r.bool)"),
        ("Option<Box<f32>>", "r.option(r.box(r.f32))"),
        ("Arc<i64>", "r.rc(r.i64)"),
        ("[u16; 3]", "r.array(r.u16, 3)"),
        ("(u8, [String; 2])", "r.tuple(r.u8, r.array(r.string, 2))"),
        ("[u8; 1_0usize]", "r.array(r.u8, 10)"),
    ];
    for (ty, want) in expected {
        assert_eq!(codec(ty).as_deref(), Some(want), "{ty}");
    }
    for ty in ["u128", "Nope", "()", "(u8, Nope)", "Vec"] {
        assert_eq!(codec(ty), None, "{ty}");
    }
}

#[test]
fn typed_arrays_view_plain_numbers() {
    assert_eq!(numeric_ctor(&parse_ty("&f64").unwrap()), Some("Float64Array"));
    assert_eq!(numeric_ctor(&parse_ty("bool").unwrap()), None);
    assert_eq!(numeric_ctor(&parse_ty("u8<u8>").unwrap()), None);
}

#[test]
fn typed_arrays_are_as_wide_as_archived_elements() {
    let none = Vec::new();
    for (ty, array, width) in [
        ("u8", "Uint8Array", 1),
        ("i8", "Int8Array", 1),
        ("u16", "Uint16Array", 2),
        ("i16", "Int16Array", 2),
        ("u32", "Uint32Array", 4),
        ("i32", "Int32Array", 4),
        ("f32", "Float32Array", 4),
        ("f64", "Float64Array", 8),
        ("u64", "BigUint64Array", 8),
        ("i64", "BigInt64Array", 8),
    ] {
        assert_eq!(numeric_ctor(&parse_ty(ty).unwrap()), Some(array));
        assert_eq!(layout_of(ty, &none), Some((width, width)));
    }
}

#[test]
fn paths_are_taken_apart() {
    let ty = parse_ty("&mut (a::b::Map<'static, u8, 3, String>)").unwrap();
    let (name, args) = path_parts(unref(&ty));
    assert_eq!(name, "Map");
    assert_eq!(args.len(), 2);
    assert_eq!(path_parts(args[1]).0, "String");
    assert_eq!(path_parts(&parse_ty("(u8, u8)").unwrap()).0, "");
}

#[test]
fn texts_are_split_and_joined() {
    let pieces = split_text("a,,b,", ',');
    assert_eq!(pieces, ["a", "", "b", ""]);
    assert_eq!(join_texts(&pieces, ","), "a,,b,");
    assert_eq!(split_text("", ','), [""]);
    assert_eq!(join_texts(&Vec::new(), ","), "");
    assert!(less("a", "b") && less("", "a") && less("Z", "a") && less("é", "ü"));
    assert!(!less("a", "a") && !less("b", "aa"));
    assert_eq!(decimal_text(0), "0");
    assert_eq!(decimal_text(u64::MAX), "18446744073709551615");
}
