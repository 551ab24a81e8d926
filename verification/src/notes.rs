//! What TypeScript adds: the module without types is the module with types
//! after every type annotation and every interface is taken out.
use crate::expr;
use crate::layout;
use crate::meta::FieldView;
use crate::meta::FnView;
use crate::meta::MetaView;
use crate::meta::StructView;
use crate::method;
use crate::module;
use crate::template;
use crate::text;
use crate::ty;
use vstd::prelude::*;

verus! {

/// A stretch of a module, and whether it is there for TypeScript alone.
pub struct Span {
    pub text: Seq<char>,
    pub note: bool,
}

/// The text of the spans, with or without what is there for TypeScript alone.
pub open spec fn shown(spans: Seq<Span>, typed: bool) -> Seq<char>
    decreases spans.len(),
{
    if spans.len() == 0 {
        Seq::empty()
    } else {
        let before = shown(spans.drop_last(), typed);
        if spans.last().note && !typed {
            before
        } else {
            before + spans.last().text
        }
    }
}

/// `spans` with code behind it.
pub open spec fn code(spans: Seq<Span>, text: Seq<char>) -> Seq<Span> {
    spans.push(Span { text, note: false })
}

/// `spans` with something behind it that is there for TypeScript alone.
pub open spec fn note(spans: Seq<Span>, text: Seq<char>) -> Seq<Span> {
    spans.push(Span { text, note: true })
}

/// A type behind a colon, a parameter that may be left out, or an interface.
pub open spec fn is_annotation(text: Seq<char>, structs: Seq<StructView>) -> bool {
    ||| ": "@.is_prefix_of(text)
    ||| text == "?: WebAssembly.Imports"@
    ||| exists|i: int| 0 <= i < structs.len() && module::interface(#[trigger] structs[i]) == Some(
        text,
    )
}

/// Nothing but annotations is there for TypeScript alone.
pub open spec fn proper(spans: Seq<Span>, structs: Seq<StructView>) -> bool {
    forall|i: int|
        0 <= i < spans.len() && (#[trigger] spans[i]).note ==> is_annotation(
            spans[i].text,
            structs,
        )
}

/// An argument of a method.
pub open spec fn param_spans(arg: FieldView) -> Seq<Span> {
    note(code(Seq::empty(), arg.0), ": "@ + expr::ts_name(arg.1)->0)
}

/// The arguments of a method.
pub open spec fn params_spans(args: Seq<FieldView>) -> Seq<Span>
    decreases args.len(),
{
    if args.len() == 0 {
        Seq::empty()
    } else if args.len() == 1 {
        param_spans(args[0])
    } else {
        code(params_spans(args.drop_last()), ", "@) + param_spans(args.last())
    }
}

/// The annotation of the result of a method.
pub open spec fn method_note(f: FnView) -> Seq<char> {
    if method::returns_unit(f.ret) {
        ": void"@
    } else {
        ": "@ + expr::ts_name(f.ret)->0
    }
}

/// What follows the annotation of the result of a method.
pub open spec fn method_rest(f: FnView, structs: Seq<StructView>) -> Seq<char> {
    let shim = text::debug_text(method::shim(f.name));
    let call = "wasm["@ + shim + "]("@ + method::arg_names(f.args) + ")"@;
    let (arg_codec, value, direct) = method::arg_mode(f);
    if method::is_direct(f) {
        if method::returns_unit(f.ret) {
            " { "@ + call + "; },\n"@
        } else {
            " { return "@ + call + text::when(
                ty::head(ty::bare(f.ret)) == "bool"@,
                " !== 0"@,
            ) + "; },\n"@
        }
    } else if method::is_quiet(f) {
        " { const code = invoke("@ + shim + ", "@ + arg_codec + ", "@ + value + ", "@ + direct
            + "); if (code !== ErrorCode.Ok) throw new WasmError(code); },\n"@
    } else {
        " { return call("@ + shim + ", "@ + text::decimal(
            layout::archived_layout(f.ret, structs)->Some_0.0,
        ) + ", (dv, u8, p) => "@ + expr::reader(f.ret, structs, "p"@)->0 + ", "@ + arg_codec
            + ", "@ + value + ", "@ + direct + "); },\n"@
    }
}

/// The method for a function.
pub open spec fn method_spans(f: FnView, structs: Seq<StructView>) -> Seq<Span> {
    let start = code(Seq::empty(), "    "@ + f.name + "("@) + params_spans(f.args);
    code(note(code(start, ")"@), method_note(f)), method_rest(f, structs))
}

/// The methods for the functions.
pub open spec fn methods_spans(funcs: Seq<FnView>, structs: Seq<StructView>) -> Seq<Span>
    decreases funcs.len(),
{
    if funcs.len() == 0 {
        Seq::empty()
    } else {
        methods_spans(funcs.drop_last(), structs) + method_spans(funcs.last(), structs)
    }
}

/// The interfaces of the structs.
pub open spec fn interface_spans(structs: Seq<StructView>) -> Seq<Span>
    decreases structs.len(),
{
    if structs.len() == 0 {
        Seq::empty()
    } else {
        note(interface_spans(structs.drop_last()), module::interface(structs.last())->0)
    }
}

/// The part that binds an instance, up to the methods.
pub open spec fn client_spans(encodes: bool) -> Seq<Span> {
    let a = code(note(code(Seq::empty(), template::BIND@), ": any"@), template::BIND_STATE@);
    let b = if encodes {
        code(note(code(a, template::WRITER@), ": r.RkyvWriter | null"@), template::WRITER_END@)
    } else {
        a
    };
    let c = code(code(b, template::BIND_VIEWS@), text::when(encodes, " argWriter = null;"@));
    let d = code(note(code(c, template::BIND_INVOKE@), ": string"@), ", argCodec"@);
    let e = code(note(d, ": any"@), ", argValue"@);
    let f = note(code(note(e, ": any"@), ", directArgs"@), ": any"@);
    let g = code(
        code(f, template::INVOKE_DIRECT@),
        if encodes {
            template::INVOKE_ENCODED@
        } else {
            template::INVOKE_NEVER@
        },
    );
    let h = code(note(code(g, template::CALL@), ": string"@), ", size"@);
    let i = code(note(h, ": number"@), ", read"@);
    let j = code(note(i, ": any"@), ", argCodec"@);
    let k = code(note(j, ": any"@), ", argValue"@);
    code(note(code(note(k, ": any"@), ", directArgs"@), ": any"@), template::CALL_BODY@)
}

/// The part that loads an instance.
pub open spec fn loader_spans() -> Seq<Span> {
    let a = code(note(code(Seq::empty(), template::INIT@), ": string | URL"@), ", imports"@);
    code(note(a, "?: WebAssembly.Imports"@), template::INIT_BODY@)
}

/// What both modules start with.
pub open spec fn start_text(m: MetaView) -> Seq<char> {
    template::BANNER@ + text::when(method::needs_encoder(m.funcs), template::IMPORT@) + "\n"@
        + module::runtime() + module::codecs(m)->0 + "// ---- per-struct field readers ----\n"@
        + text::gathered_text(
        m.structs.map_values(|s: StructView| module::struct_reader(s, m.structs)),
    )->0
}

/// A whole module.
pub open spec fn module_spans(m: MetaView) -> Seq<Span> {
    let a = code(Seq::empty(), start_text(m)) + interface_spans(m.structs);
    let b = a + client_spans(method::needs_encoder(m.funcs));
    code(b + methods_spans(m.funcs, m.structs), "  };\n}\n\n"@) + loader_spans()
}

// Spans.

broadcast proof fn lemma_code(spans: Seq<Span>, text: Seq<char>, typed: bool)
    ensures
        #[trigger] shown(code(spans, text), typed) == shown(spans, typed) + text,
{
    assert(code(spans, text).drop_last() =~= spans);
}

broadcast proof fn lemma_note(spans: Seq<Span>, text: Seq<char>, typed: bool)
    ensures
        #[trigger] shown(note(spans, text), typed) == shown(spans, typed) + text::when(typed, text),
{
    assert(note(spans, text).drop_last() =~= spans);
    assert(shown(spans, typed) + Seq::<char>::empty() =~= shown(spans, typed));
}

proof fn lemma_joined(a: Seq<Span>, b: Seq<Span>, typed: bool)
    ensures
        shown(a + b, typed) == shown(a, typed) + shown(b, typed),
    decreases b.len(),
{
    if b.len() == 0 {
        assert(a + b =~= a);
        assert(shown(a, typed) + Seq::<char>::empty() =~= shown(a, typed));
    } else {
        assert((a + b).drop_last() =~= a + b.drop_last());
        lemma_joined(a, b.drop_last(), typed);
        assert(shown(a, typed) + (shown(b.drop_last(), typed) + b.last().text) =~= shown(a, typed)
            + shown(b.drop_last(), typed) + b.last().text);
    }
}

broadcast proof fn lemma_proper_code(spans: Seq<Span>, text: Seq<char>, structs: Seq<StructView>)
    requires
        proper(spans, structs),
    ensures
        #[trigger] proper(code(spans, text), structs),
{
    let after = code(spans, text);
    assert forall|i: int| 0 <= i < after.len() && (#[trigger] after[i]).note implies is_annotation(
        after[i].text,
        structs,
    ) by {
        assert(after[i] == spans[i]);
    }
}

broadcast proof fn lemma_proper_note(spans: Seq<Span>, text: Seq<char>, structs: Seq<StructView>)
    requires
        proper(spans, structs),
        is_annotation(text, structs),
    ensures
        #[trigger] proper(note(spans, text), structs),
{
    let after = note(spans, text);
    assert forall|i: int| 0 <= i < after.len() && (#[trigger] after[i]).note implies is_annotation(
        after[i].text,
        structs,
    ) by {
        if i < spans.len() {
            assert(after[i] == spans[i]);
        }
    }
}

broadcast proof fn lemma_proper_joined(a: Seq<Span>, b: Seq<Span>, structs: Seq<StructView>)
    requires
        proper(a, structs),
        proper(b, structs),
    ensures
        #[trigger] proper(a + b, structs),
{
    let after = a + b;
    assert forall|i: int| 0 <= i < after.len() && (#[trigger] after[i]).note implies is_annotation(
        after[i].text,
        structs,
    ) by {
        if i < a.len() {
            assert(after[i] == a[i]);
        } else {
            assert(after[i] == b[i - a.len()]);
        }
    }
}

proof fn lemma_typed(t: Seq<char>, structs: Seq<StructView>)
    ensures
        is_annotation(": "@ + t, structs),
{
    assert((": "@ + t).subrange(0, ": "@.len() as int) =~= ": "@);
}

// The parts of a module.

proof fn lemma_param(arg: FieldView, typed: bool)
    requires
        expr::ts_name(arg.1) is Some,
    ensures
        shown(param_spans(arg), typed) == if typed {
            method::ts_param(arg)->0
        } else {
            arg.0
        },
{
    broadcast use {lemma_code, lemma_note};

    let t = expr::ts_name(arg.1)->0;
    assert(Seq::<char>::empty() + arg.0 =~= arg.0);
    assert(arg.0 + (": "@ + t) =~= arg.0 + ": "@ + t);
    assert(arg.0 + Seq::<char>::empty() =~= arg.0);
}

proof fn lemma_params(args: Seq<FieldView>, typed: bool)
    requires
        method::params(args, true) is Some,
    ensures
        method::params(args, typed) == Some(shown(params_spans(args), typed)),
    decreases args.len(),
{
    broadcast use {lemma_code, lemma_note};

    let pieces = args.map_values(|a: FieldView| method::ts_param(a));
    let names = args.map_values(|a: FieldView| a.0);
    let all = text::gathered(pieces)->0;
    if args.len() > 0 {
        let front = args.drop_last();
        let last = args.last();
        assert(pieces.drop_last() =~= front.map_values(|a: FieldView| method::ts_param(a)));
        assert(names.drop_last() =~= front.map_values(|a: FieldView| a.0));
        assert(pieces.last() == method::ts_param(last));
        lemma_param(last, typed);
        lemma_gathered_len(pieces);
        lemma_gathered_len(pieces.drop_last());
        assert(all.drop_last() =~= text::gathered(pieces.drop_last())->0);
        lemma_params(front, typed);
        if args.len() == 1 {
            assert(args[0] == last);
            assert(all[0] == pieces.last()->0);
        } else {
            let before = code(params_spans(front), ", "@);
            lemma_joined(before, param_spans(last), typed);
        }
    }
}

proof fn lemma_gathered_len(pieces: Seq<Option<Seq<char>>>)
    requires
        text::gathered(pieces) is Some,
    ensures
        text::gathered(pieces)->0.len() == pieces.len(),
    decreases pieces.len(),
{
    if pieces.len() > 0 {
        lemma_gathered_len(pieces.drop_last());
    }
}

proof fn lemma_proper_params(args: Seq<FieldView>, structs: Seq<StructView>)
    ensures
        proper(params_spans(args), structs),
    decreases args.len(),
{
    broadcast use {lemma_proper_code, lemma_proper_note, lemma_proper_joined};

    assert(proper(Seq::empty(), structs));
    if args.len() > 0 {
        lemma_typed(expr::ts_name(args.last().1)->0, structs);
        assert(proper(param_spans(args.last()), structs));
        if args.len() > 1 {
            lemma_proper_params(args.drop_last(), structs);
            assert(proper(code(params_spans(args.drop_last()), ", "@), structs));
        } else {
            assert(args[0] == args.last());
        }
    }
}

proof fn lemma_method(f: FnView, structs: Seq<StructView>, typed: bool)
    requires
        method::method(f, structs, true) is Some,
    ensures
        method::method(f, structs, typed) == Some(shown(method_spans(f, structs), typed)),
{
    broadcast use {lemma_code, lemma_note};

    let p = method::params(f.args, typed)->0;
    let open = "    "@ + f.name + "("@;
    let first = code(Seq::empty(), open);
    let rest = method_rest(f, structs);
    lemma_params(f.args, typed);
    lemma_joined(first, params_spans(f.args), typed);
    assert(Seq::<char>::empty() + open =~= open);
    let head = open + p + ")"@ + text::when(typed, method_note(f));
    assert(shown(method_spans(f, structs), typed) == head + rest);
    lemma_method_text(f, structs, typed);
}

proof fn lemma_assoc(a: Seq<char>, b: Seq<char>, c: Seq<char>)
    ensures
        a + (b + c) == a + b + c,
{
    assert(a + (b + c) =~= a + b + c);
}

/// Any method is its name, its parameters, the annotation of its result and the
/// rest.
proof fn lemma_method_text(f: FnView, structs: Seq<StructView>, typed: bool)
    requires
        method::method(f, structs, true) is Some,
        method::params(f.args, typed) is Some,
    ensures
        method::method(f, structs, typed) == Some(
            "    "@ + f.name + "("@ + method::params(f.args, typed)->0 + ")"@ + text::when(
                typed,
                method_note(f),
            ) + method_rest(f, structs),
        ),
{
    let head = "    "@ + f.name + "("@ + method::params(f.args, typed)->0 + ")"@ + text::when(
        typed,
        method_note(f),
    );
    let shim = text::debug_text(method::shim(f.name));
    let (arg_codec, value, direct) = method::arg_mode(f);
    if method::is_direct(f) {
        lemma_direct_rest(head, f);
    } else if method::is_quiet(f) {
        lemma_quiet_rest(head, shim, arg_codec, value, direct);
    } else {
        let size = text::decimal(layout::archived_layout(f.ret, structs)->Some_0.0);
        let read = expr::reader(f.ret, structs, "p"@)->0;
        lemma_reading_rest(head, shim, size, read, arg_codec, value, direct);
    }
}

proof fn lemma_direct_rest(head: Seq<char>, f: FnView)
    ensures
        ({
            let call = "wasm["@ + text::debug_text(method::shim(f.name)) + "]("@
                + method::arg_names(f.args) + ")"@;
            let test = text::when(ty::head(ty::bare(f.ret)) == "bool"@, " !== 0"@);
            &&& head + (" { "@ + call + "; },\n"@) == head + " { "@ + call + "; },\n"@
            &&& head + (" { return "@ + call + test + "; },\n"@) == head + " { return "@ + call
                + test + "; },\n"@
        }),
{
    let call = "wasm["@ + text::debug_text(method::shim(f.name)) + "]("@ + method::arg_names(
        f.args,
    ) + ")"@;
    let test = text::when(ty::head(ty::bare(f.ret)) == "bool"@, " !== 0"@);
    lemma_assoc(head, " { "@, call);
    lemma_assoc(head, " { "@ + call, "; },\n"@);
    lemma_assoc(head, " { return "@, call);
    lemma_assoc(head, " { return "@ + call, test);
    lemma_assoc(head, " { return "@ + call + test, "; },\n"@);
}

proof fn lemma_quiet_rest(
    head: Seq<char>,
    shim: Seq<char>,
    arg_codec: Seq<char>,
    value: Seq<char>,
    direct: Seq<char>,
)
    ensures
        head + (" { const code = invoke("@ + shim + ", "@ + arg_codec + ", "@ + value + ", "@
            + direct + "); if (code !== ErrorCode.Ok) throw new WasmError(code); },\n"@) == head
            + " { const code = invoke("@ + shim + ", "@ + arg_codec + ", "@ + value + ", "@
            + direct + "); if (code !== ErrorCode.Ok) throw new WasmError(code); },\n"@,
{
    let p0 = " { const code = invoke("@;
    lemma_assoc(head, p0, shim);
    let p1 = p0 + shim;
    lemma_assoc(head, p1, ", "@);
    let p2 = p1 + ", "@;
    lemma_assoc(head, p2, arg_codec);
    let p3 = p2 + arg_codec;
    lemma_assoc(head, p3, ", "@);
    let p4 = p3 + ", "@;
    lemma_assoc(head, p4, value);
    let p5 = p4 + value;
    lemma_assoc(head, p5, ", "@);
    let p6 = p5 + ", "@;
    lemma_assoc(head, p6, direct);
    let p7 = p6 + direct;
    lemma_assoc(head, p7, "); if (code !== ErrorCode.Ok) throw new WasmError(code); },\n"@);
}

proof fn lemma_reading_rest(
    head: Seq<char>,
    shim: Seq<char>,
    size: Seq<char>,
    read: Seq<char>,
    arg_codec: Seq<char>,
    value: Seq<char>,
    direct: Seq<char>,
)
    ensures
        head + (" { return call("@ + shim + ", "@ + size + ", (dv, u8, p) => "@ + read + ", "@
            + arg_codec + ", "@ + value + ", "@ + direct + "); },\n"@) == head
            + " { return call("@ + shim + ", "@ + size + ", (dv, u8, p) => "@ + read + ", "@
            + arg_codec + ", "@ + value + ", "@ + direct + "); },\n"@,
{
    let p0 = " { return call("@;
    lemma_assoc(head, p0, shim);
    let p1 = p0 + shim;
    lemma_assoc(head, p1, ", "@);
    let p2 = p1 + ", "@;
    lemma_assoc(head, p2, size);
    let p3 = p2 + size;
    lemma_assoc(head, p3, ", (dv, u8, p) => "@);
    let p4 = p3 + ", (dv, u8, p) => "@;
    lemma_assoc(head, p4, read);
    let p5 = p4 + read;
    lemma_assoc(head, p5, ", "@);
    let p6 = p5 + ", "@;
    lemma_assoc(head, p6, arg_codec);
    let p7 = p6 + arg_codec;
    lemma_assoc(head, p7, ", "@);
    let p8 = p7 + ", "@;
    lemma_assoc(head, p8, value);
    let p9 = p8 + value;
    lemma_assoc(head, p9, ", "@);
    let p10 = p9 + ", "@;
    lemma_assoc(head, p10, direct);
    let p11 = p10 + direct;
    lemma_assoc(head, p11, "); },\n"@);
}

proof fn lemma_proper_method(f: FnView, structs: Seq<StructView>)
    ensures
        proper(method_spans(f, structs), structs),
{
    broadcast use {lemma_proper_code, lemma_proper_note, lemma_proper_joined};

    let first = code(Seq::empty(), "    "@ + f.name + "("@);
    assert(proper(Seq::empty(), structs));
    assert(proper(first, structs));
    lemma_proper_params(f.args, structs);
    lemma_typed(expr::ts_name(f.ret)->0, structs);
    lemma_literals(structs);
    assert(proper(first + params_spans(f.args), structs));
    assert(proper(code(first + params_spans(f.args), ")"@), structs));
    assert(proper(note(code(first + params_spans(f.args), ")"@), method_note(f)), structs));
}

proof fn lemma_methods(funcs: Seq<FnView>, structs: Seq<StructView>, typed: bool)
    requires
        text::gathered(funcs.map_values(|f: FnView| method::method(f, structs, true))) is Some,
    ensures
        text::gathered_text(
            funcs.map_values(|f: FnView| method::method(f, structs, typed)),
        ) == Some(shown(methods_spans(funcs, structs), typed)),
        proper(methods_spans(funcs, structs), structs),
    decreases funcs.len(),
{
    broadcast use lemma_proper_joined;

    let with = funcs.map_values(|f: FnView| method::method(f, structs, true));
    let pieces = funcs.map_values(|f: FnView| method::method(f, structs, typed));
    if funcs.len() > 0 {
        let front = funcs.drop_last();
        let last = funcs.last();
        assert(with.drop_last() =~= front.map_values(|f: FnView| method::method(f, structs, true)));
        assert(pieces.drop_last() =~= front.map_values(
            |f: FnView| method::method(f, structs, typed),
        ));
        assert(with.last() == method::method(last, structs, true));
        assert(pieces.last() == method::method(last, structs, typed));
        lemma_methods(front, structs, typed);
        lemma_method(last, structs, typed);
        lemma_proper_method(last, structs);
        lemma_joined(methods_spans(front, structs), method_spans(last, structs), typed);
        let all = text::gathered(pieces)->0;
        assert(all.drop_last() =~= text::gathered(pieces.drop_last())->0);
    }
}

proof fn lemma_interfaces(list: Seq<StructView>, structs: Seq<StructView>, typed: bool)
    requires
        text::gathered(list.map_values(|s: StructView| module::interface(s))) is Some,
        forall|i: int|
            0 <= i < list.len() ==> i < structs.len() && (#[trigger] list[i]) == structs[i],
    ensures
        shown(interface_spans(list), typed) == text::when(
            typed,
            text::concat(
                text::gathered(list.map_values(|s: StructView| module::interface(s)))->0,
            ),
        ),
        proper(interface_spans(list), structs),
    decreases list.len(),
{
    broadcast use {lemma_note, lemma_proper_note};

    let pieces = list.map_values(|s: StructView| module::interface(s));
    if list.len() > 0 {
        let front = list.drop_last();
        assert(pieces.drop_last() =~= front.map_values(|s: StructView| module::interface(s)));
        assert(pieces.last() == module::interface(list.last()));
        assert forall|i: int| 0 <= i < front.len() implies i < structs.len() && (
        #[trigger] front[i]) == structs[i] by {
            assert(front[i] == list[i]);
        }
        lemma_interfaces(front, structs, typed);
        let all = text::gathered(pieces)->0;
        assert(all.drop_last() =~= text::gathered(pieces.drop_last())->0);
        let end = list.len() - 1;
        assert(list[end] == structs[end]);
        assert(module::interface(structs[end]) == Some(pieces.last()->0));
        assert(is_annotation(pieces.last()->0, structs));
    }
}

proof fn lemma_literals(structs: Seq<StructView>)
    ensures
        is_annotation(": any"@, structs),
        is_annotation(": string"@, structs),
        is_annotation(": number"@, structs),
        is_annotation(": void"@, structs),
        is_annotation(": string | URL"@, structs),
        is_annotation(": r.RkyvWriter | null"@, structs),
{
    reveal_strlit(": ");
    reveal_strlit(": any");
    reveal_strlit(": string");
    reveal_strlit(": number");
    reveal_strlit(": void");
    reveal_strlit(": string | URL");
    reveal_strlit(": r.RkyvWriter | null");
    assert(": any"@.subrange(0, 2) =~= ": "@);
    assert(": string"@.subrange(0, 2) =~= ": "@);
    assert(": number"@.subrange(0, 2) =~= ": "@);
    assert(": void"@.subrange(0, 2) =~= ": "@);
    assert(": string | URL"@.subrange(0, 2) =~= ": "@);
    assert(": r.RkyvWriter | null"@.subrange(0, 2) =~= ": "@);
}

proof fn lemma_client(encodes: bool, structs: Seq<StructView>, typed: bool)
    ensures
        shown(client_spans(encodes), typed) == module::client(typed, encodes),
        proper(client_spans(encodes), structs),
{
    broadcast use {lemma_code, lemma_note, lemma_proper_code, lemma_proper_note};

    lemma_literals(structs);
    assert(proper(Seq::empty(), structs));
    assert(Seq::<char>::empty() + template::BIND@ =~= template::BIND@);
    let before = template::BIND@ + text::when(typed, ": any"@) + template::BIND_STATE@;
    let mark = text::when(typed, ": r.RkyvWriter | null"@);
    assert(before + (template::WRITER@ + mark + template::WRITER_END@) =~= before
        + template::WRITER@ + mark + template::WRITER_END@);
    assert(before + Seq::<char>::empty() =~= before);
}

proof fn lemma_loader(structs: Seq<StructView>, typed: bool)
    ensures
        shown(loader_spans(), typed) == module::loader(typed),
        proper(loader_spans(), structs),
{
    broadcast use {lemma_code, lemma_note, lemma_proper_code, lemma_proper_note};

    lemma_literals(structs);
    assert(proper(Seq::empty(), structs));
    assert(Seq::<char>::empty() + template::INIT@ =~= template::INIT@);
}

/// The module without types is the module with types without its annotations:
/// the two consist of the same stretches in the same order, and what only the
/// one with types has is interfaces, types behind a colon and the mark of a
/// parameter that may be left out.
pub proof fn law_untyped_is_typed_without_annotations(m: MetaView)
    requires
        module::module(true, m) is Some,
    ensures
        module::module(true, m) == Some(shown(module_spans(m), true)),
        module::module(false, m) == Some(shown(module_spans(m), false)),
        proper(module_spans(m), m.structs),
{
    lemma_module(m, true);
    lemma_module(m, false);
}

proof fn lemma_module(m: MetaView, typed: bool)
    requires
        module::module(true, m) is Some,
    ensures
        module::module(typed, m) == Some(shown(module_spans(m), typed)),
        proper(module_spans(m), m.structs),
{
    broadcast use {lemma_code, lemma_proper_code, lemma_proper_joined};

    let structs = m.structs;
    let encodes = method::needs_encoder(m.funcs);
    let first = code(Seq::empty(), start_text(m));
    let a = first + interface_spans(structs);
    let b = a + client_spans(encodes);
    let c = b + methods_spans(m.funcs, structs);
    let d = code(c, "  };\n}\n\n"@);
    lemma_interfaces(structs, structs, typed);
    lemma_client(encodes, structs, typed);
    lemma_methods(m.funcs, structs, typed);
    lemma_loader(structs, typed);
    lemma_joined(first, interface_spans(structs), typed);
    lemma_joined(a, client_spans(encodes), typed);
    lemma_joined(b, methods_spans(m.funcs, structs), typed);
    lemma_joined(d, loader_spans(), typed);
    assert(Seq::<char>::empty() + start_text(m) =~= start_text(m));
    assert(proper(Seq::empty(), structs));
    assert(proper(first, structs));
    assert(proper(a, structs));
    assert(proper(b, structs));
    assert(proper(c, structs));
    assert(proper(d, structs));
    assert(module::interfaces(structs, typed) == Some(shown(interface_spans(structs), typed)));
}

} // verus!
