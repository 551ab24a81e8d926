//! Calling: what the methods of the bound object hand to the exported functions
//! and what they give back.
use crate::expr;
use crate::layout;
use crate::meta::FieldView;
use crate::meta::FnView;
use crate::meta::MetaView;
use crate::meta::StructView;
use crate::method;
use crate::module;
use crate::numbers;
use crate::reading;
use crate::reading::Memory;
use crate::reading::Place;
use crate::reading::Read;
use crate::template;
use crate::text;
use crate::ty;
use crate::ty::TyView;
use vstd::prelude::*;

verus! {

/// A value of the type crosses the boundary as it is: a number of up to 64 bits
/// or a truth value.
pub open spec fn crosses(ty: TyView) -> bool {
    let name = ty::head(ty::bare(ty));
    name == "bool"@ || reading::names_number(name)
}

/// So do all the arguments.
pub open spec fn all_cross(args: Seq<FieldView>) -> bool {
    forall|i: int| 0 <= i < args.len() ==> crosses((#[trigger] args[i]).1)
}

/// The type of what is not there.
pub open spec fn is_unit(ty: TyView) -> bool {
    ty == TyView::Tuple(Seq::<TyView>::empty())
}

/// The names of the arguments, in their order.
pub open spec fn listed(args: Seq<FieldView>) -> Seq<char> {
    text::join(Seq::new(args.len(), |i: int| args[i].0), ", "@)
}

/// The parameters of a method: the names of the arguments, in their order, each
/// with its TypeScript type where there are types.
pub open spec fn declared(args: Seq<FieldView>, typed: bool) -> Seq<char> {
    text::join(
        Seq::new(
            args.len(),
            |i: int|
                if typed {
                    args[i].0 + ": "@ + expr::ts_name(args[i].1)->0
                } else {
                    args[i].0
                },
        ),
        ", "@,
    )
}

/// The TypeScript types that a method needs are there.
pub open spec fn has_types(f: FnView) -> bool {
    &&& expr::ts_name(f.ret) is Some
    &&& forall|i: int| 0 <= i < f.args.len() ==> expr::ts_name((#[trigger] f.args[i]).1) is Some
}

/// How the exported function of `f` is named in JavaScript.
pub open spec fn exported(f: FnView) -> Seq<char> {
    text::debug_text("__wasm_zero_"@ + f.name)
}

proof fn lemma_crosses(args: Seq<FieldView>)
    ensures
        all_cross(args) == method::all_scalar(args),
{
    assert forall|i: int| 0 <= i < args.len() implies crosses((#[trigger] args[i]).1)
        == expr::is_scalar_ty(args[i].1) by {
        lemma_crosses_ty(args[i].1);
    }
    if all_cross(args) {
        assert forall|i: int| 0 <= i < args.len() implies expr::is_scalar_ty(
            (#[trigger] args[i]).1,
        ) by {
            assert(crosses(args[i].1));
        }
    }
    if method::all_scalar(args) {
        assert forall|i: int| 0 <= i < args.len() implies crosses((#[trigger] args[i]).1) by {
            assert(expr::is_scalar_ty(args[i].1));
        }
    }
}

proof fn lemma_crosses_ty(ty: TyView)
    ensures
        crosses(ty) == expr::is_scalar_ty(ty),
{
    numbers::law_numbers_cross_directly(ty::head(ty::bare(ty)));
}

proof fn lemma_unit(ty: TyView)
    ensures
        is_unit(ty) == method::returns_unit(ty),
        is_unit(ty) ==> !crosses(ty),
{
    if method::returns_unit(ty) {
        assert(ty->Tuple_0 =~= Seq::<TyView>::empty());
    }
    if is_unit(ty) {
        numbers::lemma_names();
        assert(ty::head(ty::bare(ty)).len() == 0);
        if reading::names_number(ty::head(ty::bare(ty))) {
            reading::lemma_number_of(ty::head(ty::bare(ty)));
            numbers::lemma_number_names();
        }
    }
}

proof fn lemma_names_listed(args: Seq<FieldView>)
    ensures
        method::arg_names(args) == listed(args),
{
    assert(args.map_values(|a: FieldView| a.0) =~= Seq::new(args.len(), |i: int| args[i].0));
}

proof fn lemma_declared(args: Seq<FieldView>, typed: bool)
    requires
        typed ==> forall|i: int|
            0 <= i < args.len() ==> expr::ts_name((#[trigger] args[i]).1) is Some,
    ensures
        method::params(args, typed) == Some(declared(args, typed)),
{
    let all = Seq::new(
        args.len(),
        |i: int|
            if typed {
                args[i].0 + ": "@ + expr::ts_name(args[i].1)->0
            } else {
                args[i].0
            },
    );
    if typed {
        let pieces = args.map_values(|a: FieldView| method::ts_param(a));
        assert forall|i: int| 0 <= i < pieces.len() implies
            pieces[i] == Some(#[trigger] all[i]) by {
            assert(expr::ts_name(args[i].1) is Some);
        }
        text::lemma_gathered(pieces, all);
    } else {
        assert(args.map_values(|a: FieldView| a.0) =~= all);
    }
}

/// A function whose arguments and result cross the boundary as they are is
/// called with its arguments in their order. What it returns is given back
/// unchanged where the method is declared to give a number, and compared with
/// zero where, and only where, it is declared to give a truth value.
pub proof fn law_direct_method_gives_the_declared_type(
    f: FnView,
    structs: Seq<StructView>,
    typed: bool,
)
    requires
        all_cross(f.args),
        crosses(f.ret),
        typed ==> has_types(f),
    ensures
        ({
            let t = expr::ts_name(f.ret)->0;
            &&& t == "boolean"@ || t == "number"@ || t == "bigint"@
            &&& method::method(f, structs, typed) == Some(
                "    "@ + f.name + "("@ + declared(f.args, typed) + ")"@ + text::when(
                    typed,
                    ": "@ + t,
                ) + " { return "@ + ("wasm["@ + exported(f) + "]("@ + listed(f.args) + ")"@)
                    + text::when(t == "boolean"@, " !== 0"@) + "; },\n"@,
            )
        }),
{
    lemma_crosses(f.args);
    lemma_crosses_ty(f.ret);
    lemma_unit(f.ret);
    lemma_names_listed(f.args);
    lemma_declared(f.args, typed);
    lemma_result_type(f.ret);
}

/// A truth value is declared as a `boolean`, and no number is.
proof fn lemma_result_type(ty: TyView)
    requires
        crosses(ty),
    ensures
        ({
            let t = expr::ts_name(ty)->0;
            &&& t == "boolean"@ || t == "number"@ || t == "bigint"@
            &&& t == "boolean"@ <==> ty::head(ty::bare(ty)) == "bool"@
        }),
{
    let name = ty::head(ty::bare(ty));
    numbers::lemma_names();
    reveal_strlit("boolean");
    reveal_strlit("number");
    reveal_strlit("bigint");
    assert("boolean"@.len() == 7 && "number"@.len() == 6 && "bigint"@.len() == 6);
    if reading::names_number(name) {
        reading::lemma_number_of(name);
        numbers::lemma_number_names();
        let (family, size) = reading::number_of(name);
        numbers::law_numbers_are_declared(ty, family, size);
    } else {
        numbers::lemma_only_paths_have_names(ty);
    }
}

/// A function that returns nothing and whose arguments cross the boundary as they
/// are is called with its arguments in their order, and gives nothing.
pub proof fn law_direct_method_may_give_nothing(f: FnView, structs: Seq<StructView>, typed: bool)
    requires
        all_cross(f.args),
        is_unit(f.ret),
        typed ==> has_types(f),
    ensures
        method::method(f, structs, typed) == Some(
            "    "@ + f.name + "("@ + declared(f.args, typed) + ")"@ + text::when(typed, ": void"@)
                + " { "@ + ("wasm["@ + exported(f) + "]("@ + listed(f.args) + ")"@) + "; },\n"@,
        ),
{
    lemma_crosses(f.args);
    lemma_unit(f.ret);
    lemma_names_listed(f.args);
    lemma_declared(f.args, typed);
}

/// What a method hands over for its arguments: the codec that encodes them, the
/// value that it encodes, and the arguments that cross as they are. Nothing is
/// encoded where all of them cross; where one does not, all are encoded, the only
/// one as it is and several as a list in their order.
pub open spec fn handed(f: FnView) -> Seq<char> {
    let names = "["@ + listed(f.args) + "]"@;
    if f.args.len() == 0 {
        "null, null, null"@
    } else if all_cross(f.args) {
        "null, null, "@ + names
    } else if f.args.len() == 1 {
        "__argCodec_"@ + f.name + ", "@ + f.args[0].0 + ", null"@
    } else {
        "__argCodec_"@ + f.name + ", "@ + names + ", null"@
    }
}

proof fn lemma_handed(f: FnView)
    ensures
        ({
            let (codec, value, direct) = method::arg_mode(f);
            codec + ", "@ + value + ", "@ + direct == handed(f)
        }),
{
    lemma_crosses(f.args);
    lemma_names_listed(f.args);
    let (codec, value, direct) = method::arg_mode(f);
    reveal_strlit("null");
    reveal_strlit(", ");
    reveal_strlit(", null");
    reveal_strlit("null, null, ");
    reveal_strlit("null, null, null");
    assert(", "@ + "null"@ =~= ", null"@);
    assert("null"@ + ", "@ + "null"@ + ", "@ =~= "null, null, "@);
    assert("null, null, "@ + "null"@ =~= "null, null, null"@);
    assert(codec + ", "@ + value + ", "@ + direct =~= codec + ", "@ + value + (", "@ + direct));
}

/// A function whose result does not cross the boundary as it is, or not beside
/// such arguments, has its result read out of the buffer: as much before the end
/// of the archive as the result takes, by an expression that gives what the
/// archive holds there.
pub proof fn law_reading_method_reads_the_result(
    f: FnView,
    structs: Seq<StructView>,
    typed: bool,
) -> (r: Read)
    requires
        !is_unit(f.ret),
        !(crosses(f.ret) && all_cross(f.args)),
        typed ==> has_types(f),
        reading::readable(f.ret, structs),
        layout::archived_layout(f.ret, structs) is Some,
    ensures
        method::method(f, structs, typed) == Some(
            "    "@ + f.name + "("@ + declared(f.args, typed) + ")"@ + text::when(
                typed,
                ": "@ + expr::ts_name(f.ret)->0,
            ) + " { return call("@ + exported(f) + ", "@ + text::decimal(
                reading::size_of(f.ret, structs),
            ) + ", (dv, u8, p) => "@ + r.shown("p"@) + ", "@ + handed(f) + "); },\n"@,
        ),
        forall|memory: Memory, at: int| #[trigger]
            r.value(memory, at) == reading::held(f.ret, structs, memory, at),
{
    lemma_crosses(f.args);
    lemma_crosses_ty(f.ret);
    lemma_unit(f.ret);
    lemma_declared(f.args, typed);
    lemma_handed(f);
    let r = reading::law_what_is_read_is_what_is_held(f.ret, structs, Place::Given, "p"@);
    assert forall|memory: Memory, at: int| #[trigger]
        r.value(memory, at) == reading::held(f.ret, structs, memory, at) by {
        assert(Place::Given.address(memory, at) == at);
    }
    assert(Place::Given.shown("p"@) == "p"@);
    let (codec, value, direct) = method::arg_mode(f);
    let start = "    "@ + f.name + "("@ + declared(f.args, typed) + ")"@ + text::when(
        typed,
        ": "@ + expr::ts_name(f.ret)->0,
    ) + " { return call("@ + exported(f) + ", "@ + text::decimal(reading::size_of(f.ret, structs))
        + ", (dv, u8, p) => "@ + r.shown("p"@) + ", "@;
    assert(start + codec + ", "@ + value + ", "@ + direct =~= start + (codec + ", "@ + value
        + ", "@ + direct));
    r
}

/// A function that returns nothing and has its arguments encoded tells how the
/// call went, and the method throws where it did not go well.
pub proof fn law_quiet_method_throws_on_failure(f: FnView, structs: Seq<StructView>, typed: bool)
    requires
        is_unit(f.ret),
        !all_cross(f.args),
        typed ==> has_types(f),
    ensures
        method::method(f, structs, typed) == Some(
            "    "@ + f.name + "("@ + declared(f.args, typed) + ")"@ + text::when(typed, ": void"@)
                + " { const code = invoke("@ + exported(f) + ", "@ + handed(f)
                + "); if (code !== ErrorCode.Ok) throw new WasmError(code); },\n"@,
        ),
{
    lemma_crosses(f.args);
    lemma_unit(f.ret);
    lemma_declared(f.args, typed);
    lemma_handed(f);
    let (codec, value, direct) = method::arg_mode(f);
    let start = "    "@ + f.name + "("@ + declared(f.args, typed) + ")"@ + text::when(
        typed,
        ": void"@,
    ) + " { const code = invoke("@ + exported(f) + ", "@;
    assert(start + codec + ", "@ + value + ", "@ + direct =~= start + (codec + ", "@ + value
        + ", "@ + direct));
}

/// The parts are there, and `texts` are theirs.
pub open spec fn are_parts(parts: Seq<Option<Seq<char>>>, texts: Seq<Seq<char>>) -> bool {
    parts.len() == texts.len() && forall|i: int|
        0 <= i < parts.len() ==> parts[i] == Some(#[trigger] texts[i])
}

/// A function takes an argument that does not cross the boundary as it is.
pub open spec fn needs_codecs(m: MetaView) -> bool {
    exists|i: int| 0 <= i < m.funcs.len() && !all_cross((#[trigger] m.funcs[i]).args)
}

/// A module is its parts, each once and in the order of the metadata: where an
/// argument has to be encoded, the import, the codec of every struct and that of
/// every function; the reader of every struct; with types, the declaration of
/// every struct; and the method of every function.
#[verifier::rlimit(40)]
pub proof fn law_module_is_its_parts(
    m: MetaView,
    typed: bool,
    struct_codecs: Seq<Seq<char>>,
    fn_codecs: Seq<Seq<char>>,
    readers: Seq<Seq<char>>,
    declarations: Seq<Seq<char>>,
    methods: Seq<Seq<char>>,
)
    requires
        needs_codecs(m) ==> are_parts(
            Seq::new(m.structs.len(), |i: int| module::struct_codec(m.structs[i], m.structs)),
            struct_codecs,
        ) && are_parts(
            Seq::new(m.funcs.len(), |i: int| module::fn_codec(m.funcs[i], m.structs)),
            fn_codecs,
        ),
        are_parts(
            Seq::new(m.structs.len(), |i: int| module::struct_reader(m.structs[i], m.structs)),
            readers,
        ),
        typed ==> are_parts(
            Seq::new(m.structs.len(), |i: int| module::interface(m.structs[i])),
            declarations,
        ),
        are_parts(
            Seq::new(m.funcs.len(), |i: int| method::method(m.funcs[i], m.structs, typed)),
            methods,
        ),
    ensures
        ({
            let encodes = needs_codecs(m);
            let codecs = "// ---- codecs (for non-scalar argument encoding) ----\n"@
                + text::concat(struct_codecs) + "// ---- per-function argument codecs ----\n"@
                + text::concat(fn_codecs) + "\n"@;
            module::module(typed, m) == Some(
                template::BANNER@ + text::when(encodes, template::IMPORT@) + "\n"@
                    + module::runtime() + text::when(encodes, codecs)
                    + "// ---- per-struct field readers ----\n"@ + text::concat(readers)
                    + text::when(typed, text::concat(declarations)) + module::client(
                    typed,
                    encodes,
                ) + text::concat(methods) + "  };\n}\n\n"@ + module::loader(typed),
            )
        }),
{
    let encodes = needs_codecs(m);
    assert(encodes == method::needs_encoder(m.funcs)) by {
        assert forall|i: int| 0 <= i < m.funcs.len() implies all_cross(
            (#[trigger] m.funcs[i]).args,
        ) == method::all_scalar(m.funcs[i].args) by {
            lemma_crosses(m.funcs[i].args);
        }
        if encodes {
            let i = choose|i: int|
                0 <= i < m.funcs.len() && !all_cross((#[trigger] m.funcs[i]).args);
            assert(!method::all_scalar(m.funcs[i].args));
        }
        if method::needs_encoder(m.funcs) {
            let i = choose|i: int|
                0 <= i < m.funcs.len() && !method::all_scalar((#[trigger] m.funcs[i]).args);
            assert(!all_cross(m.funcs[i].args));
        }
    }
    let a = m.structs.map_values(|s: StructView| module::struct_codec(s, m.structs));
    assert(a =~= Seq::new(m.structs.len(), |i: int| module::struct_codec(m.structs[i], m.structs)));
    if encodes {
        text::lemma_gathered(a, struct_codecs);
    }
    let b = m.funcs.map_values(|f: FnView| module::fn_codec(f, m.structs));
    assert(b =~= Seq::new(m.funcs.len(), |i: int| module::fn_codec(m.funcs[i], m.structs)));
    if encodes {
        text::lemma_gathered(b, fn_codecs);
    }
    let c = m.structs.map_values(|s: StructView| module::struct_reader(s, m.structs));
    assert(c =~= Seq::new(
        m.structs.len(),
        |i: int| module::struct_reader(m.structs[i], m.structs),
    ));
    text::lemma_gathered(c, readers);
    let d = m.structs.map_values(|s: StructView| module::interface(s));
    assert(d =~= Seq::new(m.structs.len(), |i: int| module::interface(m.structs[i])));
    if typed {
        text::lemma_gathered(d, declarations);
    }
    let e = m.funcs.map_values(|f: FnView| method::method(f, m.structs, typed));
    assert(e =~= Seq::new(
        m.funcs.len(),
        |i: int| method::method(m.funcs[i], m.structs, typed),
    ));
    text::lemma_gathered(e, methods);
}

/// There is no method that could not do its work: none for a result that cannot be
/// read, or whose place in the buffer is not known, and with types none where a type
/// is missing.
pub proof fn law_no_method_without_its_parts(f: FnView, structs: Seq<StructView>, i: int)
    ensures
        !is_unit(f.ret) && !(crosses(f.ret) && all_cross(f.args)) && (!reading::readable(
            f.ret,
            structs,
        ) || layout::archived_layout(f.ret, structs) is None) ==> method::method(
            f,
            structs,
            true,
        ) is None && method::method(f, structs, false) is None,
        0 <= i < f.args.len() && expr::ts_name(f.args[i].1) is None ==> method::method(
            f,
            structs,
            true,
        ) is None,
        expr::ts_name(f.ret) is None ==> method::method(f, structs, true) is None,
{
    lemma_crosses(f.args);
    lemma_crosses_ty(f.ret);
    lemma_unit(f.ret);
    if !reading::readable(f.ret, structs) {
        reading::law_what_cannot_be_read_has_no_reader(f.ret, structs, Place::Given, "p"@);
        assert(Place::Given.shown("p"@) == "p"@);
    }
    if 0 <= i < f.args.len() && expr::ts_name(f.args[i].1) is None {
        let pieces = f.args.map_values(|a: FieldView| method::ts_param(a));
        assert(pieces[i] is None);
        text::lemma_missing(pieces, i);
    }
    if is_unit(f.ret) {
        numbers::lemma_names();
        assert(ty::head(ty::bare(f.ret)).len() == 0);
    }
}

/// There is no module without all of its parts.
pub proof fn law_no_module_without_its_parts(m: MetaView, typed: bool, i: int)
    ensures
        0 <= i < m.structs.len() && module::struct_reader(m.structs[i], m.structs) is None
            ==> module::module(typed, m) is None,
        0 <= i < m.funcs.len() && method::method(m.funcs[i], m.structs, typed) is None
            ==> module::module(typed, m) is None,
        typed && 0 <= i < m.structs.len() && module::interface(m.structs[i]) is None
            ==> module::module(typed, m) is None,
        needs_codecs(m) && 0 <= i < m.structs.len() && module::struct_codec(
            m.structs[i],
            m.structs,
        ) is None ==> module::module(typed, m) is None,
        needs_codecs(m) && 0 <= i < m.funcs.len() && module::fn_codec(
            m.funcs[i],
            m.structs,
        ) is None ==> module::module(typed, m) is None,
{
    if needs_codecs(m) {
        let j = choose|j: int|
            0 <= j < m.funcs.len() && !all_cross((#[trigger] m.funcs[j]).args);
        lemma_crosses(m.funcs[j].args);
        assert(!method::all_scalar(m.funcs[j].args));
    }
    if 0 <= i < m.structs.len() {
        let a = m.structs.map_values(|s: StructView| module::struct_codec(s, m.structs));
        let c = m.structs.map_values(|s: StructView| module::struct_reader(s, m.structs));
        let d = m.structs.map_values(|s: StructView| module::interface(s));
        if a[i] is None {
            text::lemma_missing(a, i);
        }
        if c[i] is None {
            text::lemma_missing(c, i);
        }
        if d[i] is None {
            text::lemma_missing(d, i);
        }
    }
    if 0 <= i < m.funcs.len() {
        let b = m.funcs.map_values(|f: FnView| module::fn_codec(f, m.structs));
        let e = m.funcs.map_values(|f: FnView| method::method(f, m.structs, typed));
        if b[i] is None {
            text::lemma_missing(b, i);
        }
        if e[i] is None {
            text::lemma_missing(e, i);
        }
    }
}

} // verus!
