use wasm_zero::annotate::answer;
use wasm_zero::annotate::expand;
use wasm_zero::annotate::expand_fn;
use wasm_zero::annotate::is_direct_scalar;
use wasm_zero::annotate::meta_source;
use wasm_zero::annotate::wasm_zero;
use wasm_zero::annotate::FnDecl;
use wasm_zero::annotate::FnPlan;
use wasm_zero::annotate::Input;
use wasm_zero::annotate::ItemDecl;
use wasm_zero::annotate::Plan;
use wasm_zero::annotate::Refusal;
use wasm_zero::annotate::Shim;
use wasm_zero::annotate::SpelledTy;
use wasm_zero::annotate::StructDecl;
use wasm_zero::bindings::generate_bindings;
use wasm_zero::meta::parse_records;
use wasm_zero::meta::parse_ty;
use wasm_zero::expr::is_scalar;
use wasm_zero::wasm::META_NAME;
use wasm_zero::wasm::META_SECTION;

fn plan_of(item: &str) -> FnPlan {
    match wasm_zero(item) {
        Ok(Plan::Function(plan)) => plan,
        other => panic!("{other:?}"),
    }
}

fn record(fields: &[&str]) -> Vec<u8> {
    let payload = fields.join("\u{1f}");
    let mut v = (payload.len() as u32).to_le_bytes().to_vec();
    v.extend_from_slice(payload.as_bytes());
    v
}

#[test]
fn direct_functions_keep_their_signature() {
    let plan = plan_of("pub fn add(a: i32, b: i32) -> i32 { a + b }");
    assert_eq!(plan.shim, "__wasm_zero_add");
    assert_eq!(plan.shape, Shim::Direct);
    assert!(!plan.unit);
    assert_eq!(plan.record, record(&["1", "fn", "add", "i32", "a\u{1e}i32", "b\u{1e}i32"]));

    let plan = plan_of("fn tick() -> () {}");
    assert_eq!(plan.shape, Shim::Direct);
    assert!(plan.unit);
    assert_eq!(plan.record, record(&["1", "fn", "tick", "()"]));
}

/// The words of a text, however they are set apart.
fn words(text: &str) -> Vec<&str> {
    text.split_whitespace().collect()
}

#[test]
fn shims_have_the_text_of_their_shape() {
    let plan = plan_of("fn add(a: i32, b: i32) -> i32 { a + b }");
    assert_eq!(
        words(&plan.source),
        words(
            "#[unsafe(no_mangle)] pub unsafe extern \"C\" fn \
             __wasm_zero_add(a0: i32, a1: i32) -> i32 { add(a0, a1) }"
        )
    );
    let plan = plan_of("fn tick() -> () {}");
    assert_eq!(
        words(&plan.source),
        words("#[unsafe(no_mangle)] pub unsafe extern \"C\" fn __wasm_zero_tick() { tick() }")
    );
    let write = "let __out = unsafe { ::core::slice::from_raw_parts_mut( out_ptr as *mut u8, \
                 ::wasm_zero::mem::HEADER + ::wasm_zero::mem::MAX_BUFFER_SIZE, ) }; \
                 let __written = \
                 ::rkyv::api::high::to_bytes_in::<_, ::rkyv::rancor::Error>( &__result, \
                 ::rkyv::ser::writer::Buffer::from(&mut __out[::wasm_zero::mem::HEADER..]), ) \
                 .map(|buf| buf.len() as u32); \
                 ::wasm_zero::mem::finish_call(__out, 0, __written.ok()) }";
    let start = "#[unsafe(no_mangle)] pub unsafe extern \"C\" fn __wasm_zero_f(";
    let cases = [
        ("fn f() -> String { todo() }", "out_ptr: u32) -> u32 {", "", "String", "f()"),
        (
            "fn f(n: u8, m: u16) -> String { todo() }",
            "a0: u8, a1: u16, out_ptr: u32) -> u32 {",
            "",
            "String",
            "f(a0, a1)",
        ),
        (
            "fn f(s: String) -> u8 { todo() }",
            "in_ptr: u32, out_ptr: u32) -> u32 {",
            "let __arg: String = match unsafe { \
             ::wasm_zero_app::mem::from_buffer::<String>(in_ptr as *const u8) } { \
             Ok(read) => read, Err(e) => return ::wasm_zero::mem::ErrorCode::code(e), };",
            "u8",
            "f(__arg)",
        ),
        (
            "fn f(s: String, n: u8) -> () { todo() }",
            "in_ptr: u32, out_ptr: u32) -> u32 {",
            "let __args: (String, u8) = match unsafe { \
             ::wasm_zero_app::mem::from_buffer::<(String, u8)>(in_ptr as *const u8) } { \
             Ok(read) => read, Err(e) => return ::wasm_zero::mem::ErrorCode::code(e), };",
            "()",
            "f(__args.0, __args.1)",
        ),
    ];
    for (item, params, prelude, ret, call) in cases {
        let want =
            format!("{start}{params} {prelude} let __result: {ret} = {call}; {write}");
        let plan = plan_of(item);
        assert_eq!(words(&plan.source), words(&want), "{item}");
        assert!(syn::parse_str::<syn::ItemFn>(&plan.source).is_ok());
    }
}

#[test]
fn other_functions_use_buffers() {
    assert_eq!(plan_of("fn f() -> String { todo() }").shape, Shim::NoArgs);
    assert_eq!(plan_of("fn f(n: u8) -> Vec<u8> { todo() }").shape, Shim::ScalarArgs);
    assert_eq!(plan_of("fn f(s: String) -> u8 { todo() }").shape, Shim::OneArg);
    assert_eq!(plan_of("fn f(n: u8, s: String) -> u8 { todo() }").shape, Shim::ManyArgs);
    assert_eq!(plan_of("fn f(c: char) -> u8 { todo() }").shape, Shim::OneArg);
}

#[test]
fn types_are_spelled_token_by_token() {
    let plan = plan_of("fn f(v: Vec<u32>) -> Option<Vec<u8>> { todo() }");
    assert_eq!(
        plan.record,
        record(&["1", "fn", "f", "Option < Vec < u8 > >", "v\u{1e}Vec < u32 >"])
    );
}

#[test]
fn patterns_without_a_name_are_called_by_index() {
    let plan = plan_of("fn f(a: u8, (b, c): (u8, u8), _: u8, mut d: u8) -> u8 { b }");
    assert_eq!(
        plan.record,
        record(&[
            "1",
            "fn",
            "f",
            "u8",
            "a\u{1e}u8",
            "arg1\u{1e}(u8 , u8)",
            "arg2\u{1e}u8",
            "d\u{1e}u8"
        ])
    );
}

#[test]
fn structs_leave_a_record() {
    match wasm_zero("struct P { pub x: u32, tags: Vec<String> }") {
        Ok(Plan::Struct(plan)) => assert_eq!(
            plan.record,
            record(&["1", "struct", "P", "x\u{1e}u32", "tags\u{1e}Vec < String >"])
        ),
        other => panic!("{other:?}"),
    }
}

fn refusal_of(item: &str) -> String {
    wasm_zero(item).unwrap_err()
}

#[test]
fn items_that_cannot_be_annotated_are_refused() {
    assert_eq!(
        refusal_of("enum E { A }"),
        "#[wasm_zero] supports free functions and structs with named fields"
    );
    assert_eq!(
        refusal_of("fn f(self) {}"),
        "wasm_zero requires a return type that implements rkyv::Serialize"
    );
    assert_eq!(
        refusal_of("fn f(&self, n: u8) -> u8 { n }"),
        "wasm_zero does not support methods (functions taking `self`)"
    );
    assert_eq!(refusal_of("struct S<T>(T);"), "#[wasm_zero] structs cannot be generic");
    assert_eq!(refusal_of("struct S(u8);"), "#[wasm_zero] structs need named fields");
    assert_eq!(refusal_of("struct S;"), "#[wasm_zero] structs need named fields");
    assert_eq!(refusal_of("fn f("), "cannot parse string into token stream");
    for item in ["fn f()", "fn f", "struct", "fn f() -> u8 {} +"] {
        let said = syn::parse_str::<syn::Item>(item).map(|_| ()).unwrap_err();
        assert_eq!(refusal_of(item), said.to_string());
    }
}

#[test]
fn declarations_can_be_expanded_without_text() {
    let decl = FnDecl {
        name: "f".to_string(),
        inputs: vec![Input::Receiver],
        output: Some(SpelledTy { ty: parse_ty("u8").unwrap(), spelling: "u8".to_string() }),
    };
    assert_eq!(expand_fn(&decl).unwrap_err(), Refusal::Method);
    let decl = StructDecl { name: "S".to_string(), params: 1, fields: None };
    assert_eq!(expand(&ItemDecl::Struct(decl)).unwrap_err(), Refusal::Generic);
    let x = SpelledTy { ty: parse_ty("u8").unwrap(), spelling: "u8".to_string() };
    let fields = Some(vec![("x".to_string(), x)]);
    let decl = ItemDecl::Struct(StructDecl { name: "S".to_string(), params: 0, fields });
    match answer(&decl) {
        Ok(Plan::Struct(plan)) => {
            assert_eq!(plan.record, record(&["1", "struct", "S", "x\u{1e}u8"]));
        }
        other => panic!("{other:?}"),
    }
    assert_eq!(expand(&ItemDecl::Unsupported).unwrap_err(), Refusal::UnsupportedItem);
}

#[test]
fn both_sides_agree_on_numbers() {
    for name in [
        "i8", "i16", "i32", "i64", "u8", "u16", "u32", "u64", "f32", "f64", "usize", "isize",
        "bool", "core::primitive::u8", "(u8)", "((f64))",
    ] {
        let ty = parse_ty(name).unwrap();
        assert!(is_direct_scalar(&ty), "{name}");
        assert!(is_scalar(&ty), "{name}");
    }
    for name in ["String", "Vec<u8>", "()", "(u8,)", "[u8; 4]", "u8<u8>"] {
        let ty = parse_ty(name).unwrap();
        assert!(!is_direct_scalar(&ty), "{name}");
    }
    for name in ["char", "u128", "i128", "String", "Vec<u8>", "()", "(u8,)", "[u8; 4]"] {
        let ty = parse_ty(name).unwrap();
        assert!(!is_direct_scalar(&ty), "{name}");
        assert!(!is_scalar(&ty), "{name}");
    }
    for name in ["&u8", "(&u8)"] {
        let ty = parse_ty(name).unwrap();
        assert!(!is_direct_scalar(&ty), "{name}");
        assert!(is_scalar(&ty), "{name}");
    }
    assert_eq!(plan_of("fn f(n: (u32)) -> (u8) { 0 }").shape, Shim::Direct);
    assert_eq!(plan_of("fn f(n: (u32)) -> String { todo() }").shape, Shim::ScalarArgs);
}

#[test]
fn shims_call_functions_of_any_name() {
    for name in ["out", "finish_call", "written", "result", "read"] {
        let plan = plan_of(&format!("fn {name}(s: String) -> String {{ s }}"));
        let call = format!("let __result: String = {name}(__arg);");
        assert!(plan.source.contains(&call), "{name}");
        assert!(!plan.source.contains("use "));
        let before = plan.source.split(&call).next().unwrap();
        assert!(!before.contains(&format!("let {name}")));
    }
}

#[test]
fn records_are_put_into_the_section_that_is_read() {
    assert_eq!(
        meta_source("P", &vec![7, 0, 255]),
        "#[cfg(target_arch = \"wasm32\")]\n#[doc(hidden)]\n#[used]\n\
         #[unsafe(link_section = \"__wasm_zero\")]\n\
         static __WASM_ZERO_META_P: [u8; 3] = [7, 0, 255];\n"
    );
    assert_eq!(META_NAME.as_bytes(), META_SECTION);
    let plan = plan_of("fn f(s: String) -> u8 { 0 }");
    assert_eq!(plan.meta, meta_source("f", &plan.record));
    let meta = syn::parse_str::<syn::ItemStatic>(&plan.meta).unwrap();
    assert_eq!(meta.ident.to_string(), "__WASM_ZERO_META_f");
    match wasm_zero("struct P { x: u32 }") {
        Ok(Plan::Struct(plan)) => assert_eq!(plan.meta, meta_source("P", &plan.record)),
        other => panic!("{other:?}"),
    }
}

#[test]
fn annotated_items_are_found_in_the_binary() {
    let mut blob = Vec::new();
    for item in [
        "struct P { x: u32, y: Option<u64> }",
        "fn make(n: u8) -> P { P { x: 0, y: None } }",
        "fn take(p: P, s: String) -> u64 { 0 }",
    ] {
        match wasm_zero(item).unwrap() {
            Plan::Function(plan) => blob.extend(plan.record),
            Plan::Struct(plan) => blob.extend(plan.record),
        }
    }
    let m = parse_records(&blob).unwrap();
    assert_eq!(m.structs.len(), 1);
    assert_eq!(m.structs[0].name, "P");
    assert_eq!(m.funcs.len(), 2);
    assert_eq!(m.funcs[1].name, "take");
    assert_eq!(m.funcs[1].args[1].0, "s");

    let mut wasm = b"\0asm\x01\0\0\0\0".to_vec();
    let mut content = b"\x0b__wasm_zero".to_vec();
    content.extend(&blob);
    wasm.push((content.len() % 128) as u8 | 0x80);
    wasm.push((content.len() / 128) as u8);
    wasm.extend(&content);
    let g = generate_bindings(&wasm).unwrap();
    assert!(g.js.contains("y: (u8[p + 8] === 0 ? null : dv.getBigUint64(p + 8 + 8, true))"));
    assert!(g.js.contains("make(n) { return call(\"__wasm_zero_make\", 24, "));
    assert!(g.js.contains("const __argCodec_take = r.tuple(ArchivedP, r.string);"));
    assert!(g.js.contains("__argCodec_take, [p, s], null); },"));
}
