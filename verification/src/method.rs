//! Methods: what the bound object offers for each function.
//!
//! Where a type cannot be rendered there is no method.
use crate::expr;
use crate::layout;
use crate::meta;
use crate::meta::FieldView;
use crate::meta::FnMeta;
use crate::meta::FnView;
use crate::meta::StructMeta;
use crate::meta::StructView;
use crate::text;
use crate::ty;
use crate::ty::Ty;
use crate::ty::TyView;
use vstd::prelude::*;

verus! {

// Arguments.

/// Are all the arguments scalars?
pub open spec fn all_scalar(args: Seq<FieldView>) -> bool {
    forall|i: int| 0 <= i < args.len() ==> expr::is_scalar_ty((#[trigger] args[i]).1)
}

/// Does a function take an argument that has to be encoded?
pub open spec fn needs_encoder(funcs: Seq<FnView>) -> bool {
    exists|i: int| 0 <= i < funcs.len() && !all_scalar((#[trigger] funcs[i]).args)
}

/// The codecs of the arguments, one by one.
pub open spec fn arg_codecs(args: Seq<FieldView>, structs: Seq<StructView>) -> Seq<
    Option<Seq<char>>,
> {
    args.map_values(|a: FieldView| expr::codec(a.1, structs))
}

/// The codec of a list of arguments: that of the only one, or a tuple.
pub open spec fn list_codec(args: Seq<FieldView>, structs: Seq<StructView>) -> Option<Seq<char>> {
    if args.len() == 0 {
        Some("null"@)
    } else if args.len() == 1 {
        expr::codec(args[0].1, structs)
    } else {
        match text::gathered(arg_codecs(args, structs)) {
            Some(all) => Some("r.tuple("@ + text::join(all, ", "@) + ")"@),
            None => None,
        }
    }
}

/// The names of the arguments.
pub open spec fn arg_names(args: Seq<FieldView>) -> Seq<char> {
    text::join(args.map_values(|a: FieldView| a.0), ", "@)
}

/// An argument with its TypeScript type.
pub open spec fn ts_param(arg: FieldView) -> Option<Seq<char>> {
    match expr::ts_name(arg.1) {
        Some(t) => Some(arg.0 + ": "@ + t),
        None => None,
    }
}

/// The parameters of a method.
pub open spec fn params(args: Seq<FieldView>, typed: bool) -> Option<Seq<char>> {
    if typed {
        match text::gathered(args.map_values(|a: FieldView| ts_param(a))) {
            Some(all) => Some(text::join(all, ", "@)),
            None => None,
        }
    } else {
        Some(arg_names(args))
    }
}

/// Are all the arguments scalars?
pub fn scalars_only(args: &Vec<(String, Ty)>) -> (r: bool)
    ensures
        r == all_scalar(meta::field_views(args@)),
{
    let ghost views = meta::field_views(args@);
    let mut i: usize = 0;
    while i < args.len()
        invariant
            i <= args@.len(),
            views == meta::field_views(args@),
            forall|j: int| 0 <= j < i ==> expr::is_scalar_ty((#[trigger] views[j]).1),
        decreases args@.len() - i,
    {
        assert(views[i as int].1 == args@[i as int].1@);
        if !expr::is_scalar(&args[i].1) {
            return false;
        }
        i = i + 1;
    }
    true
}

/// Does a function take an argument that has to be encoded?
pub fn needs_rkyv(funcs: &Vec<FnMeta>) -> (r: bool)
    ensures
        r == needs_encoder(meta::fn_views(funcs@)),
{
    let ghost views = meta::fn_views(funcs@);
    let mut i: usize = 0;
    while i < funcs.len()
        invariant
            i <= funcs@.len(),
            views == meta::fn_views(funcs@),
            forall|j: int| 0 <= j < i ==> all_scalar((#[trigger] views[j]).args),
        decreases funcs@.len() - i,
    {
        assert(views[i as int] == funcs@[i as int]@);
        if !scalars_only(&funcs[i].args) {
            return true;
        }
        i = i + 1;
    }
    false
}

/// The codec of a list of arguments: that of the only one, or a tuple.
pub fn args_codec(args: &Vec<(String, Ty)>, structs: &Vec<StructMeta>) -> (r: Option<String>)
    ensures
        match list_codec(meta::field_views(args@), meta::struct_views(structs@)) {
            Some(want) => r matches Some(got) && got@ == want,
            None => r is None,
        },
{
    let ghost views = meta::field_views(args@);
    let ghost pieces = arg_codecs(views, meta::struct_views(structs@));
    if args.len() == 0 {
        return Some("null".to_owned());
    }
    if args.len() == 1 {
        assert(views[0].1 == args@[0].1@);
        return expr::codec_expr(&args[0].1, structs);
    }
    let mut all: Vec<String> = Vec::new();
    let mut i: usize = 0;
    assert(pieces.take(0) =~= Seq::empty());
    assert(text::texts(all@) =~= Seq::empty());
    while i < args.len()
        invariant
            i <= args@.len(),
            views == meta::field_views(args@),
            pieces == arg_codecs(views, meta::struct_views(structs@)),
            text::gathered(pieces.take(i as int)) == Some(text::texts(all@)),
        decreases args@.len() - i,
    {
        assert(pieces.take(i + 1).drop_last() =~= pieces.take(i as int));
        assert(views[i as int].1 == args@[i as int].1@);
        match expr::codec_expr(&args[i].1, structs) {
            Some(piece) => text::gather(&mut all, piece),
            None => {
                proof {
                    text::lemma_missing(pieces, i as int);
                }
                return None;
            },
        }
        i = i + 1;
    }
    assert(pieces.take(i as int) =~= pieces);
    Some(text::around("r.tuple(", text::join_texts(&all, ", ").as_str(), ")"))
}

/// The names of the arguments.
fn names_csv(args: &Vec<(String, Ty)>) -> (r: String)
    ensures
        r@ == arg_names(meta::field_views(args@)),
{
    let ghost names = meta::field_views(args@).map_values(|a: FieldView| a.0);
    let mut all: Vec<String> = Vec::new();
    let mut i: usize = 0;
    assert(text::texts(all@) =~= names.take(0));
    while i < args.len()
        invariant
            i <= args@.len(),
            names == meta::field_views(args@).map_values(|a: FieldView| a.0),
            text::texts(all@) == names.take(i as int),
        decreases args@.len() - i,
    {
        text::gather(&mut all, args[i].0.clone());
        assert(text::texts(all@) =~= names.take(i + 1));
        i = i + 1;
    }
    assert(names.take(i as int) =~= names);
    text::join_texts(&all, ", ")
}

/// The parameters of a method.
fn method_params(args: &Vec<(String, Ty)>, typed: bool) -> (r: Option<String>)
    ensures
        match params(meta::field_views(args@), typed) {
            Some(want) => r matches Some(got) && got@ == want,
            None => r is None,
        },
{
    if !typed {
        return Some(names_csv(args));
    }
    let ghost views = meta::field_views(args@);
    let ghost pieces = views.map_values(|a: FieldView| ts_param(a));
    let mut all: Vec<String> = Vec::new();
    let mut i: usize = 0;
    assert(pieces.take(0) =~= Seq::empty());
    assert(text::texts(all@) =~= Seq::empty());
    while i < args.len()
        invariant
            typed,
            i <= args@.len(),
            views == meta::field_views(args@),
            pieces == views.map_values(|a: FieldView| ts_param(a)),
            text::gathered(pieces.take(i as int)) == Some(text::texts(all@)),
        decreases args@.len() - i,
    {
        assert(pieces.take(i + 1).drop_last() =~= pieces.take(i as int));
        assert(views[i as int] == (args@[i as int].0@, args@[i as int].1@));
        match expr::ts_type(&args[i].1) {
            Some(t) => text::gather(&mut all, text::around(args[i].0.as_str(), ": ", t.as_str())),
            None => {
                proof {
                    text::lemma_missing(pieces, i as int);
                }
                return None;
            },
        }
        i = i + 1;
    }
    assert(pieces.take(i as int) =~= pieces);
    Some(text::join_texts(&all, ", "))
}

// Methods.

/// The name of the exported function behind a method.
pub open spec fn shim(name: Seq<char>) -> Seq<char> {
    "__wasm_zero_"@ + name
}

/// Does the function return nothing?
pub open spec fn returns_unit(ret: TyView) -> bool {
    ret matches TyView::Tuple(types) && types.len() == 0
}

/// Is the result of the exported function the result of the method?
pub open spec fn is_direct(f: FnView) -> bool {
    (returns_unit(f.ret) || expr::is_scalar_ty(f.ret)) && all_scalar(f.args)
}

/// The type of the result of a method, as it is written behind its parameters.
pub open spec fn result_note(ret: TyView, typed: bool) -> Option<Seq<char>> {
    if !typed {
        Some(Seq::empty())
    } else {
        match expr::ts_name(ret) {
            Some(t) => Some(": "@ + t),
            None => None,
        }
    }
}

/// A method that calls the exported function and gives what it returns.
pub open spec fn direct_method(f: FnView, typed: bool) -> Option<Seq<char>> {
    let call = "wasm["@ + text::debug_text(shim(f.name)) + "]("@ + arg_names(f.args) + ")"@;
    match (params(f.args, typed), result_note(f.ret, typed)) {
        (Some(p), Some(note)) => Some(
            if returns_unit(f.ret) {
                "    "@ + f.name + "("@ + p + ")"@ + text::when(typed, ": void"@) + " { "@ + call
                    + "; },\n"@
            } else {
                "    "@ + f.name + "("@ + p + ")"@ + note + " { return "@ + call + text::when(
                    ty::head(ty::bare(f.ret)) == "bool"@,
                    " !== 0"@,
                ) + "; },\n"@
            },
        ),
        _ => None,
    }
}

/// What a method hands to `call` for its arguments: a codec, the value that it
/// encodes, and the arguments that are not encoded.
pub open spec fn arg_mode(f: FnView) -> (Seq<char>, Seq<char>, Seq<char>) {
    let names = "["@ + arg_names(f.args) + "]"@;
    if f.args.len() == 0 {
        ("null"@, "null"@, "null"@)
    } else if all_scalar(f.args) {
        ("null"@, "null"@, names)
    } else {
        (
            "__argCodec_"@ + f.name,
            if f.args.len() == 1 {
                f.args[0].0
            } else {
                names
            },
            "null"@,
        )
    }
}

/// A method that reads the result out of the output buffer.
pub open spec fn reading_method(f: FnView, structs: Seq<StructView>, typed: bool) -> Option<
    Seq<char>,
> {
    match (
        params(f.args, typed),
        result_note(f.ret, typed),
        layout::archived_layout(f.ret, structs),
        expr::reader(f.ret, structs, "p"@),
    ) {
        (Some(p), Some(note), Some((size, _)), Some(read)) => {
            let (arg_codec, value, direct) = arg_mode(f);
            Some(
                "    "@ + f.name + "("@ + p + ")"@ + note + " { return call("@ + text::debug_text(
                    shim(f.name),
                ) + ", "@ + text::decimal(size) + ", (dv, u8, p) => "@ + read + ", "@ + arg_codec
                    + ", "@ + value + ", "@ + direct + "); },\n"@,
            )
        },
        _ => None,
    }
}

/// Does the function return nothing, but has to have its arguments encoded?
pub open spec fn is_quiet(f: FnView) -> bool {
    returns_unit(f.ret) && !all_scalar(f.args)
}

/// A method that has its arguments encoded and gives nothing.
pub open spec fn quiet_method(f: FnView, typed: bool) -> Option<Seq<char>> {
    match params(f.args, typed) {
        Some(p) => {
            let (arg_codec, value, direct) = arg_mode(f);
            Some(
                "    "@ + f.name + "("@ + p + ")"@ + text::when(typed, ": void"@)
                    + " { const code = invoke("@ + text::debug_text(shim(f.name)) + ", "@
                    + arg_codec + ", "@ + value + ", "@ + direct
                    + "); if (code !== ErrorCode.Ok) throw new WasmError(code); },\n"@,
            )
        },
        None => None,
    }
}

/// The method for a function.
pub open spec fn method(f: FnView, structs: Seq<StructView>, typed: bool) -> Option<Seq<char>> {
    if is_direct(f) {
        direct_method(f, typed)
    } else if is_quiet(f) {
        quiet_method(f, typed)
    } else {
        reading_method(f, structs, typed)
    }
}

/// The name of the exported function behind a method.
pub fn shim_name(name: &str) -> (r: String)
    ensures
        r@ == shim(name@),
{
    let mut out: String = "__wasm_zero_".to_owned();
    out.append(name);
    out
}

/// Does the function return nothing?
pub fn unit_result(ret: &Ty) -> (r: bool)
    ensures
        r == returns_unit(ret@),
{
    match ret {
        Ty::Tuple(types) => types.len() == 0,
        _ => false,
    }
}

/// The type of the result of a method, as it is written behind its parameters.
fn result_annotation(ret: &Ty, typed: bool) -> (r: Option<String>)
    ensures
        match result_note(ret@, typed) {
            Some(want) => r matches Some(got) && got@ == want,
            None => r is None,
        },
{
    if !typed {
        return Some(String::new());
    }
    match expr::ts_type(ret) {
        Some(t) => {
            let mut out: String = ": ".to_owned();
            out.append(t.as_str());
            Some(out)
        },
        None => None,
    }
}

/// How a method starts.
fn method_start(name: &str, params: &str) -> (r: String)
    ensures
        r@ == "    "@ + name@ + "("@ + params@ + ")"@,
{
    let mut out: String = text::around("    ", name, "(");
    out.append(params);
    out.append(")");
    out
}

/// A method that calls the exported function and gives what it returns.
fn render_direct(f: &FnMeta, typed: bool) -> (r: Option<String>)
    ensures
        match direct_method(f@, typed) {
            Some(want) => r matches Some(got) && got@ == want,
            None => r is None,
        },
{
    let mut call: String = text::around(
        "wasm[",
        text::debug_form(shim_name(f.name.as_str()).as_str()).as_str(),
        "](",
    );
    call.append(names_csv(&f.args).as_str());
    call.append(")");
    match (method_params(&f.args, typed), result_annotation(&f.ret, typed)) {
        (Some(p), Some(note)) => {
            let mut out: String = method_start(f.name.as_str(), p.as_str());
            if unit_result(&f.ret) {
                text::append_when(&mut out, typed, ": void");
                out.append(" { ");
                out.append(call.as_str());
            } else {
                let (name, _) = ty::path_parts(ty::unref(&f.ret));
                out.append(note.as_str());
                out.append(" { return ");
                out.append(call.as_str());
                text::append_when(&mut out, text::same(name, "bool"), " !== 0");
            }
            out.append("; },\n");
            Some(out)
        },
        _ => None,
    }
}

/// What a method hands to `call` for its arguments.
fn argument_mode(f: &FnMeta) -> (r: (String, String, String))
    ensures
        (r.0@, r.1@, r.2@) == arg_mode(f@),
{
    let names: String = text::around("[", names_csv(&f.args).as_str(), "]");
    if f.args.len() == 0 {
        return ("null".to_owned(), "null".to_owned(), "null".to_owned());
    }
    if scalars_only(&f.args) {
        return ("null".to_owned(), "null".to_owned(), names);
    }
    let mut codec_name: String = "__argCodec_".to_owned();
    codec_name.append(f.name.as_str());
    let value: String = if f.args.len() == 1 {
        assert(f@.args[0].0 == f.args@[0].0@);
        f.args[0].0.clone()
    } else {
        names
    };
    (codec_name, value, "null".to_owned())
}

/// A method that reads the result out of the output buffer.
fn render_reading(f: &FnMeta, structs: &Vec<StructMeta>, typed: bool) -> (r: Option<String>)
    ensures
        match reading_method(f@, meta::struct_views(structs@), typed) {
            Some(want) => r matches Some(got) && got@ == want,
            None => r is None,
        },
{
    let (arg_codec, value, direct) = argument_mode(f);
    match (
        method_params(&f.args, typed),
        result_annotation(&f.ret, typed),
        layout::archived(&f.ret, structs),
        expr::read_field(&f.ret, structs, "p"),
    ) {
        (Some(p), Some(note), Some((size, _)), Some(read)) => {
            let mut out: String = method_start(f.name.as_str(), p.as_str());
            out.append(note.as_str());
            out.append(" { return call(");
            out.append(text::debug_form(shim_name(f.name.as_str()).as_str()).as_str());
            out.append(", ");
            out.append(text::decimal_text(size as u64).as_str());
            out.append(", (dv, u8, p) => ");
            out.append(read.as_str());
            out.append(", ");
            out.append(arg_codec.as_str());
            out.append(", ");
            out.append(value.as_str());
            out.append(", ");
            out.append(direct.as_str());
            out.append("); },\n");
            Some(out)
        },
        _ => None,
    }
}

/// A method that has its arguments encoded and gives nothing.
fn render_quiet(f: &FnMeta, typed: bool) -> (r: Option<String>)
    ensures
        match quiet_method(f@, typed) {
            Some(want) => r matches Some(got) && got@ == want,
            None => r is None,
        },
{
    let (arg_codec, value, direct) = argument_mode(f);
    match method_params(&f.args, typed) {
        Some(p) => {
            let mut out: String = method_start(f.name.as_str(), p.as_str());
            text::append_when(&mut out, typed, ": void");
            out.append(" { const code = invoke(");
            out.append(text::debug_form(shim_name(f.name.as_str()).as_str()).as_str());
            out.append(", ");
            out.append(arg_codec.as_str());
            out.append(", ");
            out.append(value.as_str());
            out.append(", ");
            out.append(direct.as_str());
            out.append("); if (code !== ErrorCode.Ok) throw new WasmError(code); },\n");
            Some(out)
        },
        None => None,
    }
}

/// The method for a function.
pub fn render_method(f: &FnMeta, structs: &Vec<StructMeta>, typed: bool) -> (r: Option<String>)
    ensures
        match method(f@, meta::struct_views(structs@), typed) {
            Some(want) => r matches Some(got) && got@ == want,
            None => r is None,
        },
{
    if (unit_result(&f.ret) || expr::is_scalar(&f.ret)) && scalars_only(&f.args) {
        render_direct(f, typed)
    } else if unit_result(&f.ret) {
        render_quiet(f, typed)
    } else {
        render_reading(f, structs, typed)
    }
}

} // verus!
