//! Expressions: how a value of a type is read, how it is encoded, and what its
//! TypeScript type is.
//!
//! Every function here that makes text gives nothing where it cannot: for a
//! generic type without its argument, a type that no archive can hold, and one
//! that has no reader or no codec.
use crate::layout;
use crate::meta;
use crate::meta::StructMeta;
use crate::meta::StructView;
use crate::order;
use crate::text;
use crate::ty;
use crate::ty::Ty;
use crate::ty::TyView;
use vstd::prelude::*;

verus! {

/// The typed array that views a list of such elements.
pub open spec fn typed_array(ty: TyView) -> Option<Seq<char>> {
    let t = ty::bare(ty);
    let name = ty::head(t);
    if ty::type_args(t).len() > 0 {
        None
    } else if name == "u8"@ {
        Some("Uint8Array"@)
    } else if name == "i8"@ {
        Some("Int8Array"@)
    } else if name == "u16"@ {
        Some("Uint16Array"@)
    } else if name == "i16"@ {
        Some("Int16Array"@)
    } else if name == "u32"@ {
        Some("Uint32Array"@)
    } else if name == "i32"@ {
        Some("Int32Array"@)
    } else if name == "f32"@ {
        Some("Float32Array"@)
    } else if name == "f64"@ {
        Some("Float64Array"@)
    } else if name == "u64"@ {
        Some("BigUint64Array"@)
    } else if name == "i64"@ {
        Some("BigInt64Array"@)
    } else {
        None
    }
}

/// The expression that reads a scalar at `addr`.
pub open spec fn scalar_reader(name: Seq<char>, addr: Seq<char>) -> Option<Seq<char>> {
    if name == "bool"@ {
        Some("(u8["@ + addr + "] !== 0)"@)
    } else if name == "u8"@ {
        Some("u8["@ + addr + "]"@)
    } else if name == "i8"@ {
        Some("dv.getInt8("@ + addr + ")"@)
    } else if name == "u16"@ {
        Some("dv.getUint16("@ + addr + ", true)"@)
    } else if name == "i16"@ {
        Some("dv.getInt16("@ + addr + ", true)"@)
    } else if name == "u32"@ || name == "usize"@ {
        Some("dv.getUint32("@ + addr + ", true)"@)
    } else if name == "i32"@ || name == "isize"@ {
        Some("dv.getInt32("@ + addr + ", true)"@)
    } else if name == "u64"@ {
        Some("dv.getBigUint64("@ + addr + ", true)"@)
    } else if name == "i64"@ {
        Some("dv.getBigInt64("@ + addr + ", true)"@)
    } else if name == "f32"@ {
        Some("dv.getFloat32("@ + addr + ", true)"@)
    } else if name == "f64"@ {
        Some("dv.getFloat64("@ + addr + ", true)"@)
    } else if name == "char"@ {
        Some("String.fromCodePoint(dv.getUint32("@ + addr + ", true))"@)
    } else {
        None
    }
}

/// The expression that reads a value of type `ty` at `addr`.
pub open spec fn reader(ty: TyView, structs: Seq<StructView>, addr: Seq<char>) -> Option<Seq<char>>
    decreases ty,
{
    let t = ty::bare(ty);
    let name = ty::head(t);
    let args = ty::type_args(t);
    if scalar_reader(name, addr) is Some {
        scalar_reader(name, addr)
    } else if layout::is_string(name) {
        Some("rdStr(dv, u8, "@ + addr + ")"@)
    } else if layout::is_list(name) {
        if args.len() == 0 {
            None
        } else {
            proof {
                ty::lemma_type_args_smaller(ty, 0);
            }
            match typed_array(args[0]) {
                Some(ctor) => Some("rdVec(dv, "@ + addr + ", "@ + ctor + ")"@),
                None => match (
                    layout::archived_layout(args[0], structs),
                    reader(args[0], structs, "a"@),
                ) {
                    (Some((stride, _)), Some(inner)) => Some(
                        "rdVecOf(dv, u8, "@ + addr + ", "@ + text::decimal(stride) + ", (a) => "@
                            + inner + ")"@,
                    ),
                    _ => None,
                },
            }
        }
    } else if name == "Option"@ {
        if args.len() == 0 {
            None
        } else {
            proof {
                ty::lemma_type_args_smaller(ty, 0);
            }
            match layout::archived_layout(args[0], structs) {
                None => None,
                Some((_, align)) => {
                    let payload = addr + " + "@ + text::decimal(layout::aligned(1, align));
                    match reader(args[0], structs, payload) {
                        None => None,
                        Some(inner) => Some("(u8["@ + addr + "] === 0 ? null : "@ + inner + ")"@),
                    }
                },
            }
        }
    } else if layout::is_pointer(name) {
        if args.len() == 0 {
            None
        } else {
            proof {
                ty::lemma_type_args_smaller(ty, 0);
            }
            reader(args[0], structs, "("@ + addr + ") + dv.getInt32("@ + addr + ", true)"@)
        }
    } else if let TyView::Array(el, n) = t {
        proof {
            ty::lemma_parts_smaller(ty);
        }
        match (layout::archived_layout(*el, structs), reader(*el, structs, "a"@)) {
            (Some((stride, _)), Some(inner)) => Some(
                "Array.from({ length: "@ + text::decimal(n) + " }, (_, i) => ((a) => "@ + inner
                    + ")("@ + addr + " + i * "@ + text::decimal(stride) + "))"@,
            ),
            _ => None,
        }
    } else if ty::tuple_types(ty).len() > 0 {
        proof {
            ty::lemma_parts_smaller(ty);
        }
        let types = ty::tuple_types(ty);
        match (layout::extent(types, structs, structs.len()), readers(types, structs, addr)) {
            (Some(_), Some(all)) => Some("["@ + text::join(all, ", "@) + "]"@),
            _ => None,
        }
    } else if order::fields_named(structs, name) is Some {
        Some("decode_"@ + name + "(dv, u8, "@ + addr + ")"@)
    } else {
        None
    }
}

/// The expressions that read values one behind the other from `addr` on.
pub open spec fn readers(types: Seq<TyView>, structs: Seq<StructView>, addr: Seq<char>) -> Option<
    Seq<Seq<char>>,
>
    decreases types,
{
    if types.len() == 0 {
        Some(Seq::empty())
    } else {
        let last = types[types.len() - 1];
        match layout::offset(types, types.len() - 1, structs) {
            None => None,
            Some(off) => match (
                readers(types.drop_last(), structs, addr),
                reader(last, structs, addr + " + "@ + text::decimal(off)),
            ) {
                (Some(before), Some(read)) => Some(before.push(read)),
                _ => None,
            },
        }
    }
}

/// Is a value of this type a number?
pub open spec fn is_number(name: Seq<char>) -> bool {
    name == "u8"@ || name == "i8"@ || name == "u16"@ || name == "i16"@ || name == "u32"@ || name
        == "i32"@ || name == "f32"@ || name == "f64"@ || name == "usize"@ || name == "isize"@
}

/// The TypeScript type of what the readers give for `ty`.
pub open spec fn ts_name(ty: TyView) -> Option<Seq<char>>
    decreases ty,
{
    let t = ty::bare(ty);
    let name = ty::head(t);
    let args = ty::type_args(t);
    if layout::is_list(name) || name == "Option"@ || layout::is_pointer(name) {
        if args.len() == 0 {
            None
        } else {
            proof {
                ty::lemma_type_args_smaller(ty, 0);
            }
            match ts_name(args[0]) {
                None => None,
                Some(inner) => if layout::is_pointer(name) {
                    Some(inner)
                } else if name == "Option"@ {
                    Some(inner + " | null"@)
                } else if typed_array(args[0]) is Some {
                    typed_array(args[0])
                } else {
                    Some(inner + "[]"@)
                },
            }
        }
    } else if let TyView::Array(el, _) = t {
        proof {
            ty::lemma_parts_smaller(ty);
        }
        match ts_name(*el) {
            None => None,
            Some(inner) => Some(inner + "[]"@),
        }
    } else if ty::tuple_types(ty).len() > 0 {
        proof {
            ty::lemma_parts_smaller(ty);
        }
        match ts_names(ty::tuple_types(ty)) {
            None => None,
            Some(all) => Some("["@ + text::join(all, ", "@) + "]"@),
        }
    } else if is_number(name) {
        Some("number"@)
    } else if name == "u64"@ || name == "i64"@ || name == "u128"@ || name == "i128"@ {
        Some("bigint"@)
    } else if name == "bool"@ {
        Some("boolean"@)
    } else if name == "char"@ || layout::is_string(name) {
        Some("string"@)
    } else {
        Some(name)
    }
}

/// The TypeScript types for a list of types.
pub open spec fn ts_names(types: Seq<TyView>) -> Option<Seq<Seq<char>>>
    decreases types,
{
    if types.len() == 0 {
        Some(Seq::empty())
    } else {
        match (ts_names(types.drop_last()), ts_name(types[types.len() - 1])) {
            (Some(before), Some(last)) => Some(before.push(last)),
            _ => None,
        }
    }
}

/// Is it the name of a type whose values are a single number to a binary?
pub open spec fn is_direct_name(name: Seq<char>) -> bool {
    name == "i8"@ || name == "i16"@ || name == "i32"@ || name == "i64"@ || name == "u8"@ || name
        == "u16"@ || name == "u32"@ || name == "u64"@ || name == "f32"@ || name == "f64"@ || name
        == "usize"@ || name == "isize"@ || name == "bool"@
}

/// Is a value of this type handed over as a plain number?
pub open spec fn is_scalar_ty(ty: TyView) -> bool {
    is_direct_name(ty::head(ty::bare(ty)))
}

/// The codec of a type that has no parts.
pub open spec fn plain_codec(name: Seq<char>) -> Option<Seq<char>> {
    if name == "u8"@ || name == "i8"@ || name == "u16"@ || name == "i16"@ || name == "u32"@ || name
        == "i32"@ || name == "u64"@ || name == "i64"@ || name == "f32"@ || name == "f64"@ || name
        == "bool"@ || name == "char"@ {
        Some("r."@ + name)
    } else if name == "usize"@ {
        Some("r.u32"@)
    } else if name == "isize"@ {
        Some("r.i32"@)
    } else if layout::is_string(name) {
        Some("r.string"@)
    } else {
        None
    }
}

/// How the codec of a type that holds another starts.
pub open spec fn outer_codec(name: Seq<char>) -> Option<Seq<char>> {
    if layout::is_list(name) {
        Some("r.vec("@)
    } else if name == "Option"@ {
        Some("r.option("@)
    } else if name == "Box"@ {
        Some("r.box("@)
    } else if name == "Rc"@ || name == "Arc"@ {
        Some("r.rc("@)
    } else {
        None
    }
}

/// The codec that encodes a value of type `ty`.
pub open spec fn codec(ty: TyView, structs: Seq<StructView>) -> Option<Seq<char>>
    decreases ty,
{
    let t = ty::bare(ty);
    let name = ty::head(t);
    let args = ty::type_args(t);
    if outer_codec(name) is Some {
        if args.len() == 0 {
            None
        } else {
            proof {
                ty::lemma_type_args_smaller(ty, 0);
            }
            match codec(args[0], structs) {
                None => None,
                Some(inner) => Some(outer_codec(name)->0 + inner + ")"@),
            }
        }
    } else if let TyView::Array(el, len) = t {
        proof {
            ty::lemma_parts_smaller(ty);
        }
        match codec(*el, structs) {
            None => None,
            Some(inner) => Some("r.array("@ + inner + ", "@ + text::decimal(len) + ")"@),
        }
    } else if ty::tuple_types(ty).len() > 0 {
        proof {
            ty::lemma_parts_smaller(ty);
        }
        match codec_list(ty::tuple_types(ty), structs) {
            None => None,
            Some(all) => Some("r.tuple("@ + text::join(all, ", "@) + ")"@),
        }
    } else if plain_codec(name) is Some {
        plain_codec(name)
    } else if order::fields_named(structs, name) is Some {
        Some("Archived"@ + name)
    } else {
        None
    }
}

/// The codecs for a list of types.
pub open spec fn codec_list(types: Seq<TyView>, structs: Seq<StructView>) -> Option<Seq<Seq<char>>>
    decreases types,
{
    if types.len() == 0 {
        Some(Seq::empty())
    } else {
        match (codec_list(types.drop_last(), structs), codec(types[types.len() - 1], structs)) {
            (Some(before), Some(last)) => Some(before.push(last)),
            _ => None,
        }
    }
}

proof fn lemma_readers_missing(
    types: Seq<TyView>,
    structs: Seq<StructView>,
    addr: Seq<char>,
    n: int,
)
    requires
        0 <= n <= types.len(),
        readers(types.take(n), structs, addr) is None,
    ensures
        readers(types, structs, addr) is None,
    decreases types.len(),
{
    if n == types.len() {
        assert(types.take(n) =~= types);
    } else {
        assert(types.drop_last().take(n) =~= types.take(n));
        lemma_readers_missing(types.drop_last(), structs, addr, n);
    }
}

proof fn lemma_ts_names_missing(types: Seq<TyView>, i: int)
    requires
        0 <= i < types.len(),
        ts_name(types[i]) is None,
    ensures
        ts_names(types) is None,
    decreases types.len(),
{
    if i < types.len() - 1 {
        lemma_ts_names_missing(types.drop_last(), i);
    }
}

proof fn lemma_codecs_missing(types: Seq<TyView>, structs: Seq<StructView>, i: int)
    requires
        0 <= i < types.len(),
        codec(types[i], structs) is None,
    ensures
        codec_list(types, structs) is None,
    decreases types.len(),
{
    if i < types.len() - 1 {
        lemma_codecs_missing(types.drop_last(), structs, i);
    }
}

/// How many bytes an element of a typed array takes.
pub open spec fn bytes_per_element(array: Seq<char>) -> nat {
    if array == "Uint8Array"@ || array == "Int8Array"@ {
        1
    } else if array == "Uint16Array"@ || array == "Int16Array"@ {
        2
    } else if array == "Uint32Array"@ || array == "Int32Array"@ || array == "Float32Array"@ {
        4
    } else {
        8
    }
}

/// A typed array views archived elements as they lie: its elements are as large
/// as the archived ones, which are as far apart as they are large.
pub proof fn law_typed_arrays_fit_the_archive(ty: TyView, structs: Seq<StructView>)
    ensures
        typed_array(ty) matches Some(array) ==> layout::archived_layout(ty, structs) == Some(
            (bytes_per_element(array), bytes_per_element(array)),
        ),
{
    reveal_strlit("Uint8Array");
    reveal_strlit("Int8Array");
    reveal_strlit("Uint16Array");
    reveal_strlit("Int16Array");
    reveal_strlit("Uint32Array");
    reveal_strlit("Int32Array");
    reveal_strlit("Float32Array");
    reveal_strlit("Float64Array");
    reveal_strlit("BigUint64Array");
    reveal_strlit("BigInt64Array");
    assert("Uint8Array"@.len() == 10 && "Int8Array"@.len() == 9);
    assert("Uint16Array"@.len() == 11 && "Uint16Array"@[4] == '1');
    assert("Uint32Array"@.len() == 11 && "Uint32Array"@[4] == '3');
    assert("Int16Array"@.len() == 10 && "Int16Array"@[0] == 'I' && "Int16Array"@[3] == '1');
    assert("Int32Array"@.len() == 10 && "Int32Array"@[0] == 'I' && "Int32Array"@[3] == '3');
    assert("Uint8Array"@[0] == 'U');
    assert("Float32Array"@.len() == 12 && "Float32Array"@[5] == '3');
    assert("Float64Array"@.len() == 12 && "Float64Array"@[5] == '6');
    assert("BigUint64Array"@.len() == 14 && "BigInt64Array"@.len() == 13);
    layout::lemma_number_layouts();
}

/// The typed array that views a list of such elements.
pub fn numeric_ctor(ty: &Ty) -> (r: Option<&'static str>)
    ensures
        match typed_array(ty@) {
            Some(want) => r matches Some(got) && got@ == want,
            None => r is None,
        },
{
    let t = ty::unref(ty);
    let (name, args) = ty::path_parts(t);
    assert(ty::type_args(t@).len() == args@.len());
    if args.len() > 0 {
        None
    } else if text::same(name, "u8") {
        Some("Uint8Array")
    } else if text::same(name, "i8") {
        Some("Int8Array")
    } else if text::same(name, "u16") {
        Some("Uint16Array")
    } else if text::same(name, "i16") {
        Some("Int16Array")
    } else if text::same(name, "u32") {
        Some("Uint32Array")
    } else if text::same(name, "i32") {
        Some("Int32Array")
    } else if text::same(name, "f32") {
        Some("Float32Array")
    } else if text::same(name, "f64") {
        Some("Float64Array")
    } else if text::same(name, "u64") {
        Some("BigUint64Array")
    } else if text::same(name, "i64") {
        Some("BigInt64Array")
    } else {
        None
    }
}

/// The expression that reads a scalar at `addr`.
fn read_scalar(name: &str, addr: &str) -> (r: Option<String>)
    ensures
        match scalar_reader(name@, addr@) {
            Some(want) => r matches Some(got) && got@ == want,
            None => r is None,
        },
{
    if text::same(name, "bool") {
        Some(text::around("(u8[", addr, "] !== 0)"))
    } else if text::same(name, "u8") {
        Some(text::around("u8[", addr, "]"))
    } else if text::same(name, "i8") {
        Some(text::around("dv.getInt8(", addr, ")"))
    } else if text::same(name, "u16") {
        Some(text::around("dv.getUint16(", addr, ", true)"))
    } else if text::same(name, "i16") {
        Some(text::around("dv.getInt16(", addr, ", true)"))
    } else if text::same(name, "u32") || text::same(name, "usize") {
        Some(text::around("dv.getUint32(", addr, ", true)"))
    } else if text::same(name, "i32") || text::same(name, "isize") {
        Some(text::around("dv.getInt32(", addr, ", true)"))
    } else if text::same(name, "u64") {
        Some(text::around("dv.getBigUint64(", addr, ", true)"))
    } else if text::same(name, "i64") {
        Some(text::around("dv.getBigInt64(", addr, ", true)"))
    } else if text::same(name, "f32") {
        Some(text::around("dv.getFloat32(", addr, ", true)"))
    } else if text::same(name, "f64") {
        Some(text::around("dv.getFloat64(", addr, ", true)"))
    } else if text::same(name, "char") {
        Some(text::around("String.fromCodePoint(dv.getUint32(", addr, ", true))"))
    } else {
        None
    }
}

/// The expression that reads a list at `addr`, whose elements `inner` reads.
fn read_list(stride: u32, inner: &str, addr: &str) -> (r: String)
    ensures
        r@ == "rdVecOf(dv, u8, "@ + addr@ + ", "@ + text::decimal(stride as nat) + ", (a) => "@
            + inner@ + ")"@,
{
    let mut out: String = "rdVecOf(dv, u8, ".to_owned();
    out.append(addr);
    out.append(", ");
    out.append(text::decimal_text(stride as u64).as_str());
    out.append(", (a) => ");
    out.append(inner);
    out.append(")");
    out
}

/// The expression that reads an array at `addr`, whose elements `inner` reads.
fn read_array(n: u64, stride: u32, inner: &str, addr: &str) -> (r: String)
    ensures
        r@ == "Array.from({ length: "@ + text::decimal(n as nat) + " }, (_, i) => ((a) => "@
            + inner@ + ")("@ + addr@ + " + i * "@ + text::decimal(stride as nat) + "))"@,
{
    let mut out: String = "Array.from({ length: ".to_owned();
    out.append(text::decimal_text(n).as_str());
    out.append(" }, (_, i) => ((a) => ");
    out.append(inner);
    out.append(")(");
    out.append(addr);
    out.append(" + i * ");
    out.append(text::decimal_text(stride as u64).as_str());
    out.append("))");
    out
}

/// The expressions that read values one behind the other from `addr` on.
fn read_values(types: &Vec<&Ty>, structs: &Vec<StructMeta>, addr: &str) -> (r: Option<Vec<String>>)
    ensures
        match (
            layout::extent(
                ty::ty_views(types@),
                meta::struct_views(structs@),
                structs@.len(),
            ),
            readers(ty::ty_views(types@), meta::struct_views(structs@), addr@),
        ) {
            (Some(_), Some(want)) => r matches Some(got) && text::texts(got@) == want,
            _ => r is None,
        },
    decreases ty::ty_views(types@),
{
    let ghost views = ty::ty_views(types@);
    let ghost known = meta::struct_views(structs@);
    let starts = match layout::offsets(types, structs) {
        Some(starts) => starts,
        None => {
            return None;
        },
    };
    let mut all: Vec<String> = Vec::new();
    let mut i: usize = 0;
    assert(views.take(0) =~= Seq::empty());
    assert(text::texts(all@) =~= Seq::empty());
    while i < types.len()
        invariant
            i <= types@.len(),
            views == ty::ty_views(types@),
            known == meta::struct_views(structs@),
            starts@.len() == views.len(),
            forall|j: int|
                0 <= j < views.len() ==> layout::offset(views, j, known) == Some(
                    #[trigger] starts@[j] as nat,
                ),
            readers(views.take(i as int), known, addr@) == Some(text::texts(all@)),
        decreases types@.len() - i,
    {
        let ghost front = views.take(i + 1);
        assert(front.drop_last() =~= views.take(i as int));
        assert(front.take(i as int) =~= views.take(i as int));
        assert(front[i as int] == views[i as int]);
        assert(layout::offset(front, i as int, known) == Some(starts@[i as int] as nat));
        assert(decreases_to!(views => views[i as int]));
        let mut place: String = addr.to_owned();
        place.append(" + ");
        place.append(text::decimal_text(starts[i] as u64).as_str());
        match read_field(types[i], structs, place.as_str()) {
            Some(read) => text::gather(&mut all, read),
            None => {
                proof {
                    lemma_readers_missing(views, known, addr@, i + 1);
                }
                return None;
            },
        }
        i = i + 1;
    }
    assert(views.take(i as int) =~= views);
    Some(all)
}

/// The expression that reads a value of type `ty` at `addr`.
pub fn read_field(ty: &Ty, structs: &Vec<StructMeta>, addr: &str) -> (r: Option<String>)
    ensures
        match reader(ty@, meta::struct_views(structs@), addr@) {
            Some(want) => r matches Some(got) && got@ == want,
            None => r is None,
        },
    decreases ty@,
{
    let t = ty::unref(ty);
    let (name, args) = ty::path_parts(t);
    assert(ty::type_args(t@).len() == args@.len());
    let scalar = read_scalar(name, addr);
    if scalar.is_some() {
        return scalar;
    }
    if layout::string_name(name) {
        return Some(text::around("rdStr(dv, u8, ", addr, ")"));
    }
    if layout::list_name(name) || text::same(name, "Option") || layout::pointer_name(name) {
        if args.len() == 0 {
            return None;
        }
        assert(ty::type_args(t@)[0] == args@[0]@);
        proof {
            ty::lemma_type_args_smaller(ty@, 0);
        }
        if layout::list_name(name) {
            if let Some(ctor) = numeric_ctor(args[0]) {
                let mut out: String = text::around("rdVec(dv, ", addr, ", ");
                out.append(ctor);
                out.append(")");
                return Some(out);
            }
            return match (layout::archived(args[0], structs), read_field(args[0], structs, "a")) {
                (Some((stride, _)), Some(inner)) => Some(
                    read_list(stride, inner.as_str(), addr),
                ),
                _ => None,
            };
        }
        if text::same(name, "Option") {
            return match layout::archived(args[0], structs) {
                None => None,
                Some((_, align)) => {
                    let mut payload: String = addr.to_owned();
                    payload.append(" + ");
                    payload.append(text::decimal_text(layout::align_up(1, align) as u64).as_str());
                    match read_field(args[0], structs, payload.as_str()) {
                        None => None,
                        Some(inner) => {
                            let mut out: String = text::around("(u8[", addr, "] === 0 ? null : ");
                            out.append(inner.as_str());
                            out.append(")");
                            Some(out)
                        },
                    }
                },
            };
        }
        let mut target: String = text::around("(", addr, ") + dv.getInt32(");
        target.append(addr);
        target.append(", true)");
        return read_field(args[0], structs, target.as_str());
    }
    proof {
        ty::lemma_parts_smaller(ty@);
    }
    match t {
        Ty::Array(el, n) => {
            return match (layout::archived(el, structs), read_field(el, structs, "a")) {
                (Some((stride, _)), Some(inner)) => Some(
                    read_array(*n, stride, inner.as_str(), addr),
                ),
                _ => None,
            };
        },
        Ty::Tuple(types) => {
            if types.len() > 0 {
                let refs = ty::borrowed(types);
                assert(ty::ty_views(refs@) =~= ty::tuple_types(ty@));
                return match read_values(&refs, structs, addr) {
                    Some(all) => Some(
                        text::around("[", text::join_texts(&all, ", ").as_str(), "]"),
                    ),
                    None => None,
                };
            }
        },
        _ => {},
    }
    if layout::find_struct(structs, name).is_some() {
        let mut out: String = text::around("decode_", name, "(dv, u8, ");
        out.append(addr);
        out.append(")");
        return Some(out);
    }
    None
}

/// The TypeScript type of what the readers give for `ty`.
pub fn ts_type(ty: &Ty) -> (r: Option<String>)
    ensures
        match ts_name(ty@) {
            Some(want) => r matches Some(got) && got@ == want,
            None => r is None,
        },
    decreases ty@,
{
    let t = ty::unref(ty);
    let (name, args) = ty::path_parts(t);
    assert(ty::type_args(t@).len() == args@.len());
    if layout::list_name(name) || text::same(name, "Option") || layout::pointer_name(name) {
        if args.len() == 0 {
            return None;
        }
        assert(ty::type_args(t@)[0] == args@[0]@);
        proof {
            ty::lemma_type_args_smaller(ty@, 0);
        }
        let mut out = match ts_type(args[0]) {
            None => {
                return None;
            },
            Some(inner) => inner,
        };
        if layout::pointer_name(name) {
            return Some(out);
        }
        if text::same(name, "Option") {
            out.append(" | null");
            return Some(out);
        }
        if let Some(ctor) = numeric_ctor(args[0]) {
            return Some(ctor.to_owned());
        }
        out.append("[]");
        return Some(out);
    }
    match t {
        Ty::Array(el, _) => {
            proof {
                ty::lemma_parts_smaller(ty@);
            }
            return match ts_type(el) {
                None => None,
                Some(inner) => {
                    let mut out: String = inner;
                    out.append("[]");
                    Some(out)
                },
            };
        },
        Ty::Tuple(types) => {
            if types.len() > 0 {
                assert(ty::tuple_types(ty@) =~= ty::vec_views(types@));
                proof {
                    ty::lemma_parts_smaller(ty@);
                }
                return match ts_types(types) {
                    None => None,
                    Some(all) => Some(text::around("[", text::join_texts(&all, ", ").as_str(), "]")),
                };
            }
        },
        _ => {},
    }
    if text::same(name, "u8") || text::same(name, "i8") || text::same(name, "u16") || text::same(
        name,
        "i16",
    ) || text::same(name, "u32") || text::same(name, "i32") || text::same(name, "f32")
        || text::same(name, "f64") || text::same(name, "usize") || text::same(name, "isize") {
        Some("number".to_owned())
    } else if text::same(name, "u64") || text::same(name, "i64") || text::same(name, "u128")
        || text::same(name, "i128") {
        Some("bigint".to_owned())
    } else if text::same(name, "bool") {
        Some("boolean".to_owned())
    } else if text::same(name, "char") || layout::string_name(name) {
        Some("string".to_owned())
    } else {
        Some(name.to_owned())
    }
}

/// The TypeScript types for a list of types.
fn ts_types(types: &Vec<Ty>) -> (r: Option<Vec<String>>)
    ensures
        match ts_names(ty::vec_views(types@)) {
            Some(want) => r matches Some(got) && text::texts(got@) == want,
            None => r is None,
        },
    decreases ty::vec_views(types@),
{
    let ghost views = ty::vec_views(types@);
    let mut all: Vec<String> = Vec::new();
    let mut i: usize = 0;
    assert(views.take(0) =~= Seq::empty());
    assert(text::texts(all@) =~= Seq::empty());
    while i < types.len()
        invariant
            i <= types@.len(),
            views == ty::vec_views(types@),
            ts_names(views.take(i as int)) == Some(text::texts(all@)),
        decreases types@.len() - i,
    {
        assert(views.take(i + 1).drop_last() =~= views.take(i as int));
        assert(views.take(i + 1)[i as int] == types@[i as int]@);
        assert(decreases_to!(views => views[i as int]));
        match ts_type(&types[i]) {
            Some(part) => text::gather(&mut all, part),
            None => {
                proof {
                    lemma_ts_names_missing(views, i as int);
                }
                return None;
            },
        }
        i = i + 1;
    }
    assert(views.take(i as int) =~= views);
    Some(all)
}

/// Is it the name of a type whose values are a single number to a binary?
pub fn direct_name(name: &str) -> (r: bool)
    ensures
        r == is_direct_name(name@),
{
    text::same(name, "i8") || text::same(name, "i16") || text::same(name, "i32") || text::same(
        name,
        "i64",
    ) || text::same(name, "u8") || text::same(name, "u16") || text::same(name, "u32")
        || text::same(name, "u64") || text::same(name, "f32") || text::same(name, "f64")
        || text::same(name, "usize") || text::same(name, "isize") || text::same(name, "bool")
}

/// Is a value of this type handed over as a plain number?
pub fn is_scalar(ty: &Ty) -> (r: bool)
    ensures
        r == is_scalar_ty(ty@),
{
    let (name, _) = ty::path_parts(ty::unref(ty));
    direct_name(name)
}

/// The codec of a type that has no parts.
fn codec_of_plain(name: &str) -> (r: Option<String>)
    ensures
        match plain_codec(name@) {
            Some(want) => r matches Some(got) && got@ == want,
            None => r is None,
        },
{
    if text::same(name, "u8") || text::same(name, "i8") || text::same(name, "u16") || text::same(
        name,
        "i16",
    ) || text::same(name, "u32") || text::same(name, "i32") || text::same(name, "u64")
        || text::same(name, "i64") || text::same(name, "f32") || text::same(name, "f64")
        || text::same(name, "bool") || text::same(name, "char") {
        let mut out: String = "r.".to_owned();
        out.append(name);
        Some(out)
    } else if text::same(name, "usize") {
        Some("r.u32".to_owned())
    } else if text::same(name, "isize") {
        Some("r.i32".to_owned())
    } else if layout::string_name(name) {
        Some("r.string".to_owned())
    } else {
        None
    }
}

/// How the codec of a type that holds another starts.
fn codec_of_outer(name: &str) -> (r: Option<&'static str>)
    ensures
        match outer_codec(name@) {
            Some(want) => r matches Some(got) && got@ == want,
            None => r is None,
        },
{
    if layout::list_name(name) {
        Some("r.vec(")
    } else if text::same(name, "Option") {
        Some("r.option(")
    } else if text::same(name, "Box") {
        Some("r.box(")
    } else if text::same(name, "Rc") || text::same(name, "Arc") {
        Some("r.rc(")
    } else {
        None
    }
}

/// The codec that encodes a value of type `ty`.
pub fn codec_expr(ty: &Ty, structs: &Vec<StructMeta>) -> (r: Option<String>)
    ensures
        match codec(ty@, meta::struct_views(structs@)) {
            Some(want) => r matches Some(got) && got@ == want,
            None => r is None,
        },
    decreases ty@,
{
    let t = ty::unref(ty);
    let (name, args) = ty::path_parts(t);
    assert(ty::type_args(t@).len() == args@.len());
    if let Some(outer) = codec_of_outer(name) {
        if args.len() == 0 {
            return None;
        }
        assert(ty::type_args(t@)[0] == args@[0]@);
        proof {
            ty::lemma_type_args_smaller(ty@, 0);
        }
        return match codec_expr(args[0], structs) {
            None => None,
            Some(inner) => Some(text::around(outer, inner.as_str(), ")")),
        };
    }
    match t {
        Ty::Array(el, len) => {
            proof {
                ty::lemma_parts_smaller(ty@);
            }
            return match codec_expr(el, structs) {
                None => None,
                Some(inner) => {
                    let mut out: String = text::around("r.array(", inner.as_str(), ", ");
                    out.append(text::decimal_text(*len).as_str());
                    out.append(")");
                    Some(out)
                },
            };
        },
        Ty::Tuple(types) => {
            if types.len() > 0 {
                assert(ty::tuple_types(ty@) =~= ty::vec_views(types@));
                proof {
                    ty::lemma_parts_smaller(ty@);
                }
                return match codec_exprs(types, structs) {
                    None => None,
                    Some(all) => Some(
                        text::around("r.tuple(", text::join_texts(&all, ", ").as_str(), ")"),
                    ),
                };
            }
        },
        _ => {},
    }
    let plain = codec_of_plain(name);
    if plain.is_some() {
        return plain;
    }
    if layout::find_struct(structs, name).is_some() {
        let mut out: String = "Archived".to_owned();
        out.append(name);
        return Some(out);
    }
    None
}

/// The codecs for a list of types.
fn codec_exprs(types: &Vec<Ty>, structs: &Vec<StructMeta>) -> (r: Option<Vec<String>>)
    ensures
        match codec_list(ty::vec_views(types@), meta::struct_views(structs@)) {
            Some(want) => r matches Some(got) && text::texts(got@) == want,
            None => r is None,
        },
    decreases ty::vec_views(types@),
{
    let ghost views = ty::vec_views(types@);
    let ghost known = meta::struct_views(structs@);
    let mut all: Vec<String> = Vec::new();
    let mut i: usize = 0;
    assert(views.take(0) =~= Seq::empty());
    assert(text::texts(all@) =~= Seq::empty());
    while i < types.len()
        invariant
            i <= types@.len(),
            views == ty::vec_views(types@),
            known == meta::struct_views(structs@),
            codec_list(views.take(i as int), known) == Some(text::texts(all@)),
        decreases types@.len() - i,
    {
        assert(views.take(i + 1).drop_last() =~= views.take(i as int));
        assert(views.take(i + 1)[i as int] == types@[i as int]@);
        assert(decreases_to!(views => views[i as int]));
        match codec_expr(&types[i], structs) {
            Some(part) => text::gather(&mut all, part),
            None => {
                proof {
                    lemma_codecs_missing(views, known, i as int);
                }
                return None;
            },
        }
        i = i + 1;
    }
    assert(views.take(i as int) =~= views);
    Some(all)
}

} // verus!
