//! Modules: the whole text of a generated file.
//!
//! Where a type cannot be rendered there is no module.
use crate::expr;
use crate::layout;
use crate::mem;
use crate::mem::ErrorCode;
use crate::meta;
use crate::meta::FieldView;
use crate::meta::FnMeta;
use crate::meta::FnView;
use crate::meta::MetaView;
use crate::meta::Metadata;
use crate::meta::StructMeta;
use crate::meta::StructView;
use crate::method;
use crate::template;
use crate::text;
use crate::ty::Ty;
use vstd::prelude::*;

verus! {

/// The codec of a field.
pub open spec fn field_codec(field: FieldView, structs: Seq<StructView>) -> Option<Seq<char>> {
    match expr::codec(field.1, structs) {
        Some(c) => Some("  "@ + field.0 + ": "@ + c + ",\n"@),
        None => None,
    }
}

/// The codec of a struct.
pub open spec fn struct_codec(s: StructView, structs: Seq<StructView>) -> Option<Seq<char>> {
    match text::gathered_text(s.fields.map_values(|f: FieldView| field_codec(f, structs))) {
        Some(fields) => Some(
            "export const Archived"@ + s.name + " = r.struct({\n"@ + fields + "});\n\n"@,
        ),
        None => None,
    }
}

/// The codec of the arguments of a function, if any has to be encoded.
pub open spec fn fn_codec(f: FnView, structs: Seq<StructView>) -> Option<Seq<char>> {
    if method::all_scalar(f.args) {
        Some(Seq::empty())
    } else {
        match method::list_codec(f.args, structs) {
            Some(c) => Some("const __argCodec_"@ + f.name + " = "@ + c + ";\n"@),
            None => None,
        }
    }
}

/// The codecs of a module, if it needs any.
pub open spec fn codecs(m: MetaView) -> Option<Seq<char>> {
    if !method::needs_encoder(m.funcs) {
        Some(Seq::empty())
    } else {
        match (
            text::gathered_text(m.structs.map_values(|s: StructView| struct_codec(s, m.structs))),
            text::gathered_text(m.funcs.map_values(|f: FnView| fn_codec(f, m.structs))),
        ) {
            (Some(structs), Some(funcs)) => Some(
                "// ---- codecs (for non-scalar argument encoding) ----\n"@ + structs
                    + "// ---- per-function argument codecs ----\n"@ + funcs + "\n"@,
            ),
            _ => None,
        }
    }
}

/// The line that reads a field.
pub open spec fn field_reader(fields: Seq<FieldView>, i: int, structs: Seq<StructView>) -> Option<
    Seq<char>,
> {
    match layout::offset(layout::field_types(fields), i, structs) {
        None => None,
        Some(off) => match expr::reader(fields[i].1, structs, "p + "@ + text::decimal(off)) {
            None => None,
            Some(read) => Some("    "@ + fields[i].0 + ": "@ + read + ",\n"@),
        },
    }
}

/// The function that reads a struct.
pub open spec fn struct_reader(s: StructView, structs: Seq<StructView>) -> Option<Seq<char>> {
    let lines = Seq::new(s.fields.len(), |i: int| field_reader(s.fields, i, structs));
    match (
        layout::extent(layout::field_types(s.fields), structs, structs.len()),
        text::gathered_text(lines),
    ) {
        (Some(_), Some(fields)) => Some(
            "function decode_"@ + s.name + "(dv, u8, p) {\n  return {\n"@ + fields
                + "  };\n}\n\n"@,
        ),
        _ => None,
    }
}

/// The TypeScript declaration of a field.
pub open spec fn field_declaration(field: FieldView) -> Option<Seq<char>> {
    match expr::ts_name(field.1) {
        Some(t) => Some("  "@ + field.0 + ": "@ + t + ";\n"@),
        None => None,
    }
}

/// The TypeScript declaration of a struct.
pub open spec fn interface(s: StructView) -> Option<Seq<char>> {
    match text::gathered_text(s.fields.map_values(|f: FieldView| field_declaration(f))) {
        Some(fields) => Some("export interface "@ + s.name + " {\n"@ + fields + "}\n\n"@),
        None => None,
    }
}

/// The TypeScript declarations of a module, if it has types.
pub open spec fn interfaces(structs: Seq<StructView>, typed: bool) -> Option<Seq<char>> {
    if typed {
        text::gathered_text(structs.map_values(|s: StructView| interface(s)))
    } else {
        Some(Seq::empty())
    }
}

/// The part of a module that binds an instance, up to the methods.
pub open spec fn client(typed: bool, encodes: bool) -> Seq<char> {
    let any = text::when(typed, ": any"@);
    let writer = template::WRITER@ + text::when(typed, ": r.RkyvWriter | null"@)
        + template::WRITER_END@;
    template::BIND@ + any + template::BIND_STATE@ + text::when(encodes, writer)
        + template::BIND_VIEWS@ + text::when(encodes, " argWriter = null;"@)
        + template::BIND_INVOKE@ + text::when(typed, ": string"@) + ", argCodec"@ + any
        + ", argValue"@ + any + ", directArgs"@ + any + template::INVOKE_DIRECT@ + (if encodes {
        template::INVOKE_ENCODED@
    } else {
        template::INVOKE_NEVER@
    }) + template::CALL@ + text::when(typed, ": string"@) + ", size"@ + text::when(
        typed,
        ": number"@,
    ) + ", read"@ + any + ", argCodec"@ + any + ", argValue"@ + any + ", directArgs"@ + any
        + template::CALL_BODY@
}

/// The part of a module that loads an instance.
pub open spec fn loader(typed: bool) -> Seq<char> {
    template::INIT@ + text::when(typed, ": string | URL"@) + ", imports"@ + text::when(
        typed,
        "?: WebAssembly.Imports"@,
    ) + template::INIT_BODY@
}

/// The error codes, the constants of the buffers and the readers that every
/// module starts with.
pub open spec fn runtime() -> Seq<char> {
    template::ERRORS@ + text::decimal(ErrorCode::Success.number() as nat) + ", UnarchivingError: "@
        + text::decimal(ErrorCode::UnarchivingError.number() as nat) + ", ArchivingError: "@
        + text::decimal(ErrorCode::ArchivingError.number() as nat) + template::ERROR_CLASS@
        + text::decimal((mem::MAX_BUFFER_SIZE / 1024) as nat) + " * 1024;\nconst HEADER = "@
        + text::decimal(mem::HEADER as nat) + template::READERS@
}

/// The text of a module, with or without TypeScript types.
pub open spec fn module(typed: bool, m: MetaView) -> Option<Seq<char>> {
    let encodes = method::needs_encoder(m.funcs);
    match (
        codecs(m),
        text::gathered_text(m.structs.map_values(|s: StructView| struct_reader(s, m.structs))),
        interfaces(m.structs, typed),
        text::gathered_text(m.funcs.map_values(|f: FnView| method::method(f, m.structs, typed))),
    ) {
        (Some(codecs), Some(readers), Some(interfaces), Some(methods)) => Some(
            template::BANNER@ + text::when(encodes, template::IMPORT@) + "\n"@ + runtime()
                + codecs + "// ---- per-struct field readers ----\n"@ + readers + interfaces
                + client(typed, encodes) + methods + "  };\n}\n\n"@ + loader(typed),
        ),
        _ => None,
    }
}

/// The codec of a struct.
fn render_struct_codec(s: &StructMeta, structs: &Vec<StructMeta>) -> (r: Option<String>)
    ensures
        match struct_codec(s@, meta::struct_views(structs@)) {
            Some(want) => r matches Some(got) && got@ == want,
            None => r is None,
        },
{
    let ghost all = meta::struct_views(structs@);
    let ghost pieces = s@.fields.map_values(|f: FieldView| field_codec(f, all));
    let mut lines: Vec<String> = Vec::new();
    let mut i: usize = 0;
    assert(pieces.take(0) =~= Seq::empty());
    assert(text::texts(lines@) =~= Seq::empty());
    while i < s.fields.len()
        invariant
            i <= s.fields@.len(),
            all == meta::struct_views(structs@),
            pieces == s@.fields.map_values(|f: FieldView| field_codec(f, all)),
            text::gathered(pieces.take(i as int)) == Some(text::texts(lines@)),
        decreases s.fields@.len() - i,
    {
        assert(pieces.take(i + 1).drop_last() =~= pieces.take(i as int));
        assert(s@.fields[i as int] == (s.fields@[i as int].0@, s.fields@[i as int].1@));
        match expr::codec_expr(&s.fields[i].1, structs) {
            Some(c) => {
                let mut line: String = text::around("  ", s.fields[i].0.as_str(), ": ");
                line.append(c.as_str());
                line.append(",\n");
                text::gather(&mut lines, line);
            },
            None => {
                proof {
                    text::lemma_missing(pieces, i as int);
                }
                return None;
            },
        }
        i = i + 1;
    }
    assert(pieces.take(i as int) =~= pieces);
    let mut out: String = text::around("export const Archived", s.name.as_str(), " = r.struct({\n");
    out.append(text::concat_texts(&lines).as_str());
    out.append("});\n\n");
    Some(out)
}

/// The codec of the arguments of a function, if any has to be encoded.
fn render_fn_codec(f: &FnMeta, structs: &Vec<StructMeta>) -> (r: Option<String>)
    ensures
        match fn_codec(f@, meta::struct_views(structs@)) {
            Some(want) => r matches Some(got) && got@ == want,
            None => r is None,
        },
{
    if method::scalars_only(&f.args) {
        return Some(String::new());
    }
    match method::args_codec(&f.args, structs) {
        Some(c) => {
            let mut out: String = text::around("const __argCodec_", f.name.as_str(), " = ");
            out.append(c.as_str());
            out.append(";\n");
            Some(out)
        },
        None => None,
    }
}

/// The codecs of all structs.
fn render_struct_codecs(structs: &Vec<StructMeta>) -> (r: Option<String>)
    ensures
        match text::gathered_text(
            meta::struct_views(structs@).map_values(
                |s: StructView| struct_codec(s, meta::struct_views(structs@)),
            ),
        ) {
            Some(want) => r matches Some(got) && got@ == want,
            None => r is None,
        },
{
    let ghost all = meta::struct_views(structs@);
    let ghost pieces = all.map_values(|s: StructView| struct_codec(s, all));
    let mut parts: Vec<String> = Vec::new();
    let mut i: usize = 0;
    assert(pieces.take(0) =~= Seq::empty());
    assert(text::texts(parts@) =~= Seq::empty());
    while i < structs.len()
        invariant
            i <= structs@.len(),
            all == meta::struct_views(structs@),
            pieces == all.map_values(|s: StructView| struct_codec(s, all)),
            text::gathered(pieces.take(i as int)) == Some(text::texts(parts@)),
        decreases structs@.len() - i,
    {
        assert(pieces.take(i + 1).drop_last() =~= pieces.take(i as int));
        assert(all[i as int] == structs@[i as int]@);
        match render_struct_codec(&structs[i], structs) {
            Some(part) => text::gather(&mut parts, part),
            None => {
                proof {
                    text::lemma_missing(pieces, i as int);
                }
                return None;
            },
        }
        i = i + 1;
    }
    assert(pieces.take(i as int) =~= pieces);
    Some(text::concat_texts(&parts))
}

/// The codecs of all argument lists.
fn render_fn_codecs(funcs: &Vec<FnMeta>, structs: &Vec<StructMeta>) -> (r: Option<String>)
    ensures
        match text::gathered_text(
            meta::fn_views(funcs@).map_values(
                |f: FnView| fn_codec(f, meta::struct_views(structs@)),
            ),
        ) {
            Some(want) => r matches Some(got) && got@ == want,
            None => r is None,
        },
{
    let ghost all = meta::struct_views(structs@);
    let ghost views = meta::fn_views(funcs@);
    let ghost pieces = views.map_values(|f: FnView| fn_codec(f, all));
    let mut parts: Vec<String> = Vec::new();
    let mut i: usize = 0;
    assert(pieces.take(0) =~= Seq::empty());
    assert(text::texts(parts@) =~= Seq::empty());
    while i < funcs.len()
        invariant
            i <= funcs@.len(),
            all == meta::struct_views(structs@),
            views == meta::fn_views(funcs@),
            pieces == views.map_values(|f: FnView| fn_codec(f, all)),
            text::gathered(pieces.take(i as int)) == Some(text::texts(parts@)),
        decreases funcs@.len() - i,
    {
        assert(pieces.take(i + 1).drop_last() =~= pieces.take(i as int));
        assert(views[i as int] == funcs@[i as int]@);
        match render_fn_codec(&funcs[i], structs) {
            Some(part) => text::gather(&mut parts, part),
            None => {
                proof {
                    text::lemma_missing(pieces, i as int);
                }
                return None;
            },
        }
        i = i + 1;
    }
    assert(pieces.take(i as int) =~= pieces);
    Some(text::concat_texts(&parts))
}

/// The codecs of a module, if it needs any.
fn render_codecs(m: &Metadata) -> (r: Option<String>)
    ensures
        match codecs(m@) {
            Some(want) => r matches Some(got) && got@ == want,
            None => r is None,
        },
{
    if !method::needs_rkyv(&m.funcs) {
        return Some(String::new());
    }
    match (render_struct_codecs(&m.structs), render_fn_codecs(&m.funcs, &m.structs)) {
        (Some(structs), Some(funcs)) => {
            let mut out: String = text::around(
                "// ---- codecs (for non-scalar argument encoding) ----\n",
                structs.as_str(),
                "// ---- per-function argument codecs ----\n",
            );
            out.append(funcs.as_str());
            out.append("\n");
            Some(out)
        },
        _ => None,
    }
}

/// The part of a module that binds an instance, up to the methods.
fn render_client(typed: bool, encodes: bool) -> (r: String)
    ensures
        r@ == client(typed, encodes),
{
    let mut writer: String = template::WRITER.to_owned();
    text::append_when(&mut writer, typed, ": r.RkyvWriter | null");
    writer.append(template::WRITER_END);
    let mut out: String = template::BIND.to_owned();
    text::append_when(&mut out, typed, ": any");
    out.append(template::BIND_STATE);
    text::append_when(&mut out, encodes, writer.as_str());
    out.append(template::BIND_VIEWS);
    text::append_when(&mut out, encodes, " argWriter = null;");
    out.append(template::BIND_INVOKE);
    text::append_when(&mut out, typed, ": string");
    out.append(", argCodec");
    text::append_when(&mut out, typed, ": any");
    out.append(", argValue");
    text::append_when(&mut out, typed, ": any");
    out.append(", directArgs");
    text::append_when(&mut out, typed, ": any");
    out.append(template::INVOKE_DIRECT);
    if encodes {
        out.append(template::INVOKE_ENCODED);
    } else {
        out.append(template::INVOKE_NEVER);
    }
    out.append(template::CALL);
    text::append_when(&mut out, typed, ": string");
    out.append(", size");
    text::append_when(&mut out, typed, ": number");
    out.append(", read");
    text::append_when(&mut out, typed, ": any");
    out.append(", argCodec");
    text::append_when(&mut out, typed, ": any");
    out.append(", argValue");
    text::append_when(&mut out, typed, ": any");
    out.append(", directArgs");
    text::append_when(&mut out, typed, ": any");
    out.append(template::CALL_BODY);
    out
}

/// The part of a module that loads an instance.
fn render_loader(typed: bool) -> (r: String)
    ensures
        r@ == loader(typed),
{
    let mut out: String = template::INIT.to_owned();
    text::append_when(&mut out, typed, ": string | URL");
    out.append(", imports");
    text::append_when(&mut out, typed, "?: WebAssembly.Imports");
    out.append(template::INIT_BODY);
    out
}

/// The line that reads a field at `off`.
fn render_field_reader(name: &str, ty: &Ty, off: u32, structs: &Vec<StructMeta>) -> (r: Option<
    String,
>)
    ensures
        match expr::reader(ty@, meta::struct_views(structs@), "p + "@ + text::decimal(off as nat)) {
            Some(read) => r matches Some(got) && got@ == "    "@ + name@ + ": "@ + read + ",\n"@,
            None => r is None,
        },
{
    let mut addr: String = "p + ".to_owned();
    addr.append(text::decimal_text(off as u64).as_str());
    match expr::read_field(ty, structs, addr.as_str()) {
        Some(read) => {
            let mut line: String = text::around("    ", name, ": ");
            line.append(read.as_str());
            line.append(",\n");
            Some(line)
        },
        None => None,
    }
}

/// The function that reads a struct.
pub fn render_struct_reader(s: &StructMeta, structs: &Vec<StructMeta>) -> (r: Option<String>)
    ensures
        match struct_reader(s@, meta::struct_views(structs@)) {
            Some(want) => r matches Some(got) && got@ == want,
            None => r is None,
        },
{
    let ghost all = meta::struct_views(structs@);
    let ghost views = s@.fields;
    let ghost pieces = Seq::new(views.len(), |i: int| field_reader(views, i, all));
    let starts = match layout::offsets(&layout::types_of_fields(&s.fields), structs) {
        Some(starts) => starts,
        None => {
            return None;
        },
    };
    let mut lines: Vec<String> = Vec::new();
    let mut i: usize = 0;
    assert(pieces.take(0) =~= Seq::empty());
    assert(text::texts(lines@) =~= Seq::empty());
    while i < s.fields.len()
        invariant
            i <= s.fields@.len(),
            all == meta::struct_views(structs@),
            views == s@.fields,
            starts@.len() == views.len(),
            forall|j: int|
                0 <= j < views.len() ==> layout::offset(layout::field_types(views), j, all) == Some(
                    #[trigger] starts@[j] as nat,
                ),
            pieces == Seq::new(views.len(), |i: int| field_reader(views, i, all)),
            text::gathered(pieces.take(i as int)) == Some(text::texts(lines@)),
        decreases s.fields@.len() - i,
    {
        assert(pieces.take(i + 1).drop_last() =~= pieces.take(i as int));
        assert(views[i as int] == (s.fields@[i as int].0@, s.fields@[i as int].1@));
        match render_field_reader(s.fields[i].0.as_str(), &s.fields[i].1, starts[i], structs) {
            Some(line) => text::gather(&mut lines, line),
            None => {
                proof {
                    text::lemma_missing(pieces, i as int);
                }
                return None;
            },
        }
        i = i + 1;
    }
    assert(pieces.take(i as int) =~= pieces);
    let mut out: String = text::around(
        "function decode_",
        s.name.as_str(),
        "(dv, u8, p) {\n  return {\n",
    );
    out.append(text::concat_texts(&lines).as_str());
    out.append("  };\n}\n\n");
    Some(out)
}

/// The functions that read the structs.
fn render_struct_readers(structs: &Vec<StructMeta>) -> (r: Option<String>)
    ensures
        match text::gathered_text(
            meta::struct_views(structs@).map_values(
                |s: StructView| struct_reader(s, meta::struct_views(structs@)),
            ),
        ) {
            Some(want) => r matches Some(got) && got@ == want,
            None => r is None,
        },
{
    let ghost all = meta::struct_views(structs@);
    let ghost pieces = all.map_values(|s: StructView| struct_reader(s, all));
    let mut parts: Vec<String> = Vec::new();
    let mut i: usize = 0;
    assert(pieces.take(0) =~= Seq::empty());
    assert(text::texts(parts@) =~= Seq::empty());
    while i < structs.len()
        invariant
            i <= structs@.len(),
            all == meta::struct_views(structs@),
            pieces == all.map_values(|s: StructView| struct_reader(s, all)),
            text::gathered(pieces.take(i as int)) == Some(text::texts(parts@)),
        decreases structs@.len() - i,
    {
        assert(pieces.take(i + 1).drop_last() =~= pieces.take(i as int));
        assert(all[i as int] == structs@[i as int]@);
        match render_struct_reader(&structs[i], structs) {
            Some(part) => text::gather(&mut parts, part),
            None => {
                proof {
                    text::lemma_missing(pieces, i as int);
                }
                return None;
            },
        }
        i = i + 1;
    }
    assert(pieces.take(i as int) =~= pieces);
    Some(text::concat_texts(&parts))
}

/// The TypeScript declaration of a struct.
fn render_interface(s: &StructMeta) -> (r: Option<String>)
    ensures
        match interface(s@) {
            Some(want) => r matches Some(got) && got@ == want,
            None => r is None,
        },
{
    let ghost pieces = s@.fields.map_values(|f: FieldView| field_declaration(f));
    let mut lines: Vec<String> = Vec::new();
    let mut i: usize = 0;
    assert(pieces.take(0) =~= Seq::empty());
    assert(text::texts(lines@) =~= Seq::empty());
    while i < s.fields.len()
        invariant
            i <= s.fields@.len(),
            pieces == s@.fields.map_values(|f: FieldView| field_declaration(f)),
            text::gathered(pieces.take(i as int)) == Some(text::texts(lines@)),
        decreases s.fields@.len() - i,
    {
        assert(pieces.take(i + 1).drop_last() =~= pieces.take(i as int));
        assert(s@.fields[i as int] == (s.fields@[i as int].0@, s.fields@[i as int].1@));
        match expr::ts_type(&s.fields[i].1) {
            Some(t) => {
                let mut line: String = text::around("  ", s.fields[i].0.as_str(), ": ");
                line.append(t.as_str());
                line.append(";\n");
                text::gather(&mut lines, line);
            },
            None => {
                proof {
                    text::lemma_missing(pieces, i as int);
                }
                return None;
            },
        }
        i = i + 1;
    }
    assert(pieces.take(i as int) =~= pieces);
    let mut out: String = text::around("export interface ", s.name.as_str(), " {\n");
    out.append(text::concat_texts(&lines).as_str());
    out.append("}\n\n");
    Some(out)
}

/// The TypeScript declarations of a module, if it has types.
fn render_interfaces(structs: &Vec<StructMeta>, typed: bool) -> (r: Option<String>)
    ensures
        match interfaces(meta::struct_views(structs@), typed) {
            Some(want) => r matches Some(got) && got@ == want,
            None => r is None,
        },
{
    if !typed {
        return Some(String::new());
    }
    let ghost all = meta::struct_views(structs@);
    let ghost pieces = all.map_values(|s: StructView| interface(s));
    let mut parts: Vec<String> = Vec::new();
    let mut i: usize = 0;
    assert(pieces.take(0) =~= Seq::empty());
    assert(text::texts(parts@) =~= Seq::empty());
    while i < structs.len()
        invariant
            typed,
            i <= structs@.len(),
            all == meta::struct_views(structs@),
            pieces == all.map_values(|s: StructView| interface(s)),
            text::gathered(pieces.take(i as int)) == Some(text::texts(parts@)),
        decreases structs@.len() - i,
    {
        assert(pieces.take(i + 1).drop_last() =~= pieces.take(i as int));
        assert(all[i as int] == structs@[i as int]@);
        match render_interface(&structs[i]) {
            Some(part) => text::gather(&mut parts, part),
            None => {
                proof {
                    text::lemma_missing(pieces, i as int);
                }
                return None;
            },
        }
        i = i + 1;
    }
    assert(pieces.take(i as int) =~= pieces);
    Some(text::concat_texts(&parts))
}

/// The methods of a module.
fn render_methods(funcs: &Vec<FnMeta>, structs: &Vec<StructMeta>, typed: bool) -> (r: Option<
    String,
>)
    ensures
        match text::gathered_text(
            meta::fn_views(funcs@).map_values(
                |f: FnView| method::method(f, meta::struct_views(structs@), typed),
            ),
        ) {
            Some(want) => r matches Some(got) && got@ == want,
            None => r is None,
        },
{
    let ghost all = meta::struct_views(structs@);
    let ghost views = meta::fn_views(funcs@);
    let ghost pieces = views.map_values(|f: FnView| method::method(f, all, typed));
    let mut parts: Vec<String> = Vec::new();
    let mut i: usize = 0;
    assert(pieces.take(0) =~= Seq::empty());
    assert(text::texts(parts@) =~= Seq::empty());
    while i < funcs.len()
        invariant
            i <= funcs@.len(),
            all == meta::struct_views(structs@),
            views == meta::fn_views(funcs@),
            pieces == views.map_values(|f: FnView| method::method(f, all, typed)),
            text::gathered(pieces.take(i as int)) == Some(text::texts(parts@)),
        decreases funcs@.len() - i,
    {
        assert(pieces.take(i + 1).drop_last() =~= pieces.take(i as int));
        assert(views[i as int] == funcs@[i as int]@);
        match method::render_method(&funcs[i], structs, typed) {
            Some(part) => text::gather(&mut parts, part),
            None => {
                proof {
                    text::lemma_missing(pieces, i as int);
                }
                return None;
            },
        }
        i = i + 1;
    }
    assert(pieces.take(i as int) =~= pieces);
    Some(text::concat_texts(&parts))
}

/// The part that every module starts with.
fn render_runtime() -> (r: String)
    ensures
        r@ == runtime(),
{
    let mut out: String = template::ERRORS.to_owned();
    out.append(text::decimal_text(ErrorCode::Success.code() as u64).as_str());
    out.append(", UnarchivingError: ");
    out.append(text::decimal_text(ErrorCode::UnarchivingError.code() as u64).as_str());
    out.append(", ArchivingError: ");
    out.append(text::decimal_text(ErrorCode::ArchivingError.code() as u64).as_str());
    out.append(template::ERROR_CLASS);
    out.append(text::decimal_text((mem::MAX_BUFFER_SIZE / 1024) as u64).as_str());
    out.append(" * 1024;\nconst HEADER = ");
    out.append(text::decimal_text(mem::HEADER as u64).as_str());
    out.append(template::READERS);
    out
}

/// The text of a module, with or without TypeScript types; nothing, if a type
/// in it cannot be rendered.
pub fn render_module(typed: bool, m: &Metadata) -> (r: Option<String>)
    ensures
        match module(typed, m@) {
            Some(want) => r matches Some(got) && got@ == want,
            None => r is None,
        },
{
    let encodes = method::needs_rkyv(&m.funcs);
    match (
        render_codecs(m),
        render_struct_readers(&m.structs),
        render_interfaces(&m.structs, typed),
        render_methods(&m.funcs, &m.structs, typed),
    ) {
        (Some(codecs), Some(readers), Some(interfaces), Some(methods)) => {
            let mut out: String = template::BANNER.to_owned();
            text::append_when(&mut out, encodes, template::IMPORT);
            out.append("\n");
            out.append(render_runtime().as_str());
            out.append(codecs.as_str());
            out.append("// ---- per-struct field readers ----\n");
            out.append(readers.as_str());
            out.append(interfaces.as_str());
            out.append(render_client(typed, encodes).as_str());
            out.append(methods.as_str());
            out.append("  };\n}\n\n");
            out.append(render_loader(typed).as_str());
            Some(out)
        },
        _ => None,
    }
}

} // verus!
