//! Encoding: which archive each codec writes, and that arguments are encoded as
//! the archives of their types.
use crate::expr;
use crate::layout;
use crate::meta::FieldView;
use crate::meta::FnView;
use crate::meta::StructView;
use crate::method;
use crate::module;
use crate::numbers;
use crate::numbers::Family;
use crate::order;
use crate::reading;
use crate::text;
use crate::ty;
use crate::ty::TyView;
use vstd::prelude::*;

verus! {

/// A codec of `rkyv-js`.
pub enum Codec {
    Truth,
    Character,
    /// A number of so many bytes.
    Number(Family, nat),
    Text,
    List(Box<Codec>),
    Maybe(Box<Codec>),
    /// A pointer that owns what it leads to.
    Owned(Box<Codec>),
    /// A pointer that shares what it leads to.
    Shared(Box<Codec>),
    /// So many values side by side.
    Array(Box<Codec>, nat),
    Tuple(Seq<Codec>),
    /// The codec of the struct of that name.
    Record(Seq<char>),
}

impl Codec {
    /// The expression for the codec.
    pub open spec fn shown(self) -> Seq<char>
        decreases self,
    {
        match self {
            Codec::Truth => "r.bool"@,
            Codec::Character => "r.char"@,
            Codec::Number(family, size) => "r."@ + numbers::number_name(family, size),
            Codec::Text => "r.string"@,
            Codec::List(inner) => "r.vec("@ + inner.shown() + ")"@,
            Codec::Maybe(inner) => "r.option("@ + inner.shown() + ")"@,
            Codec::Owned(inner) => "r.box("@ + inner.shown() + ")"@,
            Codec::Shared(inner) => "r.rc("@ + inner.shown() + ")"@,
            Codec::Array(inner, n) => "r.array("@ + inner.shown() + ", "@ + text::decimal(n) + ")"@,
            Codec::Tuple(list) => "r.tuple("@ + text::join(shown_all(list), ", "@) + ")"@,
            Codec::Record(name) => "Archived"@ + name,
        }
    }
}

/// The expressions for a list of codecs.
pub open spec fn shown_all(list: Seq<Codec>) -> Seq<Seq<char>>
    decreases list,
{
    if list.len() == 0 {
        Seq::empty()
    } else {
        shown_all(list.drop_last()).push(list[list.len() - 1].shown())
    }
}

/// The codec writes the archive of a value of the type: numbers of the family and
/// the width that the archive has them at, and whatever the value is made of in
/// the same way.
pub open spec fn writes(codec: Codec, ty: TyView, structs: Seq<StructView>) -> bool
    decreases ty,
{
    let t = ty::bare(ty);
    let name = ty::head(t);
    let args = ty::type_args(t);
    if name == "bool"@ {
        codec is Truth
    } else if name == "char"@ {
        codec is Character
    } else if reading::names_number(name) {
        codec matches Codec::Number(family, size) && numbers::is_number(name, family, size) && size
            == layout::archived_layout(ty, structs)->Some_0.0
    } else if reading::names_text(name) {
        codec is Text
    } else if (reading::names_list(name) || name == "Option"@ || reading::names_pointer(name))
        && args.len() > 0 {
        proof {
            ty::lemma_type_args_smaller(ty, 0);
        }
        if reading::names_list(name) {
            codec matches Codec::List(inner) && writes(*inner, args[0], structs)
        } else if name == "Option"@ {
            codec matches Codec::Maybe(inner) && writes(*inner, args[0], structs)
        } else if name == "Box"@ {
            codec matches Codec::Owned(inner) && writes(*inner, args[0], structs)
        } else {
            codec matches Codec::Shared(inner) && writes(*inner, args[0], structs)
        }
    } else if let TyView::Array(el, n) = t {
        proof {
            ty::lemma_parts_smaller(ty);
        }
        codec matches Codec::Array(inner, m) && m == n && writes(*inner, *el, structs)
    } else if ty::tuple_types(ty).len() > 0 {
        proof {
            ty::lemma_parts_smaller(ty);
        }
        let types = ty::tuple_types(ty);
        codec matches Codec::Tuple(list) && list.len() == types.len() && forall|i: int|
            0 <= i < types.len() ==> writes(list[i], #[trigger] types[i], structs)
    } else {
        codec == Codec::Record(name) && order::fields_named(structs, name) is Some
    }
}

/// A value of the type can be encoded: it is made of truth values, characters,
/// numbers, text and structs.
pub open spec fn encodable(ty: TyView, structs: Seq<StructView>) -> bool
    decreases ty,
{
    let t = ty::bare(ty);
    let name = ty::head(t);
    let args = ty::type_args(t);
    if name == "bool"@ || name == "char"@ || reading::names_number(name) || reading::names_text(
        name,
    ) {
        true
    } else if reading::names_list(name) || name == "Option"@ || reading::names_pointer(name) {
        &&& args.len() > 0
        &&& {
            proof {
                ty::lemma_type_args_smaller(ty, 0);
            }
            encodable(args[0], structs)
        }
    } else if let TyView::Array(el, n) = t {
        proof {
            ty::lemma_parts_smaller(ty);
        }
        encodable(*el, structs)
    } else if ty::tuple_types(ty).len() > 0 {
        proof {
            ty::lemma_parts_smaller(ty);
        }
        let types = ty::tuple_types(ty);
        forall|i: int| 0 <= i < types.len() ==> encodable(#[trigger] types[i], structs)
    } else {
        order::fields_named(structs, name) is Some
    }
}

/// What the codec of a name without parts is.
proof fn lemma_plain(name: Seq<char>)
    ensures
        name == "bool"@ ==> expr::plain_codec(name) == Some(Codec::Truth.shown()),
        name == "char"@ ==> expr::plain_codec(name) == Some(Codec::Character.shown()),
        reading::names_number(name) ==> expr::plain_codec(name) == Some(
            Codec::Number(reading::number_of(name).0, reading::number_of(name).1).shown(),
        ) && numbers::is_number(name, reading::number_of(name).0, reading::number_of(name).1)
            && layout::scalar(name)->Some_0.0 == reading::number_of(name).1,
        reading::names_text(name) ==> expr::plain_codec(name) == Some(Codec::Text.shown()),
        expr::plain_codec(name) is Some ==> name == "bool"@ || name == "char"@
            || reading::names_number(name) || reading::names_text(name),
        name == "bool"@ || name == "char"@ || reading::names_number(name) || reading::names_text(
            name,
        ) ==> expr::outer_codec(name) is None && name.len() > 0,
        reading::names_number(name) ==> layout::scalar(name) is Some,
{
    numbers::lemma_names();
    numbers::law_other_scalars_are_encoded();
    if reading::names_number(name) {
        reading::lemma_number_of(name);
        let (family, size) = reading::number_of(name);
        numbers::law_numbers_are_as_wide_as_their_names(name, family, size);
        numbers::law_numbers_are_encoded_at_their_width(name, family, size);
        numbers::lemma_number_names();
    } else if expr::plain_codec(name) is Some && !layout::is_string(name) && name != "bool"@ && name
        != "char"@ {
        assert(layout::scalar(name) is Some);
        let (family, size) = numbers::law_scalars_are_numbers(name);
        numbers::law_numbers_are_as_wide_as_their_names(name, family, size);
        numbers::law_numbers_are_encoded_at_their_width(name, family, size);
        assert(size <= 8 && numbers::is_number(name, family, size));
    }
}

/// Arguments are encoded as what they are: the codec for a type that can be
/// encoded writes the archive of the type.
#[verifier::rlimit(40)]
pub proof fn law_codec_writes_the_archive(ty: TyView, structs: Seq<StructView>) -> (r: Codec)
    requires
        encodable(ty, structs),
    ensures
        expr::codec(ty, structs) == Some(r.shown()),
        writes(r, ty, structs),
    decreases ty,
{
    let t = ty::bare(ty);
    let name = ty::head(t);
    let args = ty::type_args(t);
    numbers::lemma_names();
    lemma_plain(name);
    if name == "bool"@ || name == "char"@ || reading::names_number(name) || reading::names_text(
        name,
    ) {
        numbers::lemma_only_paths_have_names(ty);
        if name == "bool"@ {
            Codec::Truth
        } else if name == "char"@ {
            Codec::Character
        } else if reading::names_number(name) {
            Codec::Number(reading::number_of(name).0, reading::number_of(name).1)
        } else {
            Codec::Text
        }
    } else if reading::names_list(name) || name == "Option"@ || reading::names_pointer(name) {
        ty::lemma_type_args_smaller(ty, 0);
        let inner = Box::new(law_codec_writes_the_archive(args[0], structs));
        if reading::names_list(name) {
            Codec::List(inner)
        } else if name == "Option"@ {
            Codec::Maybe(inner)
        } else if name == "Box"@ {
            Codec::Owned(inner)
        } else {
            Codec::Shared(inner)
        }
    } else if let TyView::Array(el, n) = t {
        assert(name.len() == 0);
        ty::lemma_parts_smaller(ty);
        Codec::Array(Box::new(law_codec_writes_the_archive(*el, structs)), n)
    } else if ty::tuple_types(ty).len() > 0 {
        assert(name.len() == 0);
        ty::lemma_parts_smaller(ty);
        Codec::Tuple(lemma_tuple(ty::tuple_types(ty), structs))
    } else {
        Codec::Record(name)
    }
}

proof fn lemma_tuple(types: Seq<TyView>, structs: Seq<StructView>) -> (list: Seq<Codec>)
    requires
        forall|i: int| 0 <= i < types.len() ==> encodable(#[trigger] types[i], structs),
    ensures
        list.len() == types.len(),
        expr::codec_list(types, structs) == Some(shown_all(list)),
        forall|i: int| 0 <= i < types.len() ==> writes(list[i], #[trigger] types[i], structs),
    decreases types,
{
    if types.len() == 0 {
        assert(shown_all(Seq::<Codec>::empty()) =~= Seq::empty());
        Seq::empty()
    } else {
        let front = types.drop_last();
        let n = types.len() - 1;
        assert forall|i: int| 0 <= i < front.len() implies
            encodable(#[trigger] front[i], structs) by {
            assert(front[i] == types[i]);
        }
        let before = lemma_tuple(front, structs);
        assert(decreases_to!(types => types[types.len() - 1]));
        let last = law_codec_writes_the_archive(types[n], structs);
        let list = before.push(last);
        assert(list.drop_last() =~= before);
        assert forall|i: int| 0 <= i < types.len() implies writes(
            list[i],
            #[trigger] types[i],
            structs,
        ) by {
            if i < n {
                assert(front[i] == types[i]);
                assert(writes(before[i], front[i], structs));
            }
        }
        list
    }
}

/// There is no codec for a type that cannot be encoded.
pub proof fn law_what_cannot_be_encoded_has_no_codec(ty: TyView, structs: Seq<StructView>)
    requires
        !encodable(ty, structs),
    ensures
        expr::codec(ty, structs) is None,
    decreases ty,
{
    let t = ty::bare(ty);
    let name = ty::head(t);
    let args = ty::type_args(t);
    numbers::lemma_names();
    lemma_plain(name);
    if reading::names_list(name) || name == "Option"@ || reading::names_pointer(name) {
        if args.len() > 0 {
            ty::lemma_type_args_smaller(ty, 0);
            law_what_cannot_be_encoded_has_no_codec(args[0], structs);
        }
    } else if let TyView::Array(el, n) = t {
        assert(name.len() == 0);
        ty::lemma_parts_smaller(ty);
        law_what_cannot_be_encoded_has_no_codec(*el, structs);
    } else if ty::tuple_types(ty).len() > 0 {
        assert(name.len() == 0);
        let types = ty::tuple_types(ty);
        ty::lemma_parts_smaller(ty);
        let i = choose|i: int| 0 <= i < types.len() && !encodable(#[trigger] types[i], structs);
        lemma_no_tuple(types, structs, i);
    }
}

proof fn lemma_no_tuple(types: Seq<TyView>, structs: Seq<StructView>, i: int)
    requires
        0 <= i < types.len(),
        !encodable(types[i], structs),
    ensures
        expr::codec_list(types, structs) is None,
    decreases types,
{
    let n = types.len() - 1;
    if i < n {
        lemma_no_tuple(types.drop_last(), structs, i);
    } else {
        assert(decreases_to!(types => types[types.len() - 1]));
        law_what_cannot_be_encoded_has_no_codec(types[n], structs);
    }
}

/// The types of a list of arguments.
pub open spec fn types_of_args(args: Seq<FieldView>) -> Seq<TyView> {
    args.map_values(|a: FieldView| a.1)
}

/// What a shim decodes its arguments from: the archive of the only one, or that of
/// a tuple of all.
pub open spec fn decoded_type(args: Seq<FieldView>) -> TyView {
    if args.len() == 1 {
        args[0].1
    } else {
        TyView::Tuple(types_of_args(args))
    }
}

/// The arguments of a function are encoded as what the shim decodes: the codec
/// of a function with an argument that is no scalar writes the archive of its only
/// argument, or that of the tuple of its arguments, in their order.
pub proof fn law_arguments_are_encoded_as_decoded(f: FnView, structs: Seq<StructView>) -> (r: Codec)
    requires
        exists|i: int|
            0 <= i < f.args.len() && !expr::is_direct_name(
                ty::head(ty::bare((#[trigger] f.args[i]).1)),
            ),
        forall|i: int| 0 <= i < f.args.len() ==> encodable((#[trigger] f.args[i]).1, structs),
    ensures
        module::fn_codec(f, structs) == Some(
            "const __argCodec_"@ + f.name + " = "@ + r.shown() + ";\n"@,
        ),
        writes(r, decoded_type(f.args), structs),
{
    let args = f.args;
    let types = types_of_args(args);
    assert(!method::all_scalar(args)) by {
        let i = choose|i: int|
            0 <= i < f.args.len() && !expr::is_direct_name(
                ty::head(ty::bare((#[trigger] f.args[i]).1)),
            );
        assert(!expr::is_scalar_ty(args[i].1));
    }
    assert forall|i: int| 0 <= i < types.len() implies encodable(#[trigger] types[i], structs) by {
        assert(types[i] == args[i].1);
    }
    if args.len() == 1 {
        assert(types[0] == args[0].1);
        law_codec_writes_the_archive(args[0].1, structs)
    } else {
        let list = lemma_tuple(types, structs);
        let all = shown_all(list);
        lemma_shown_all(list);
        let pieces = method::arg_codecs(args, structs);
        assert forall|i: int| 0 <= i < pieces.len() implies
            pieces[i] == Some(#[trigger] all[i]) by {
            lemma_codec_at(types, structs, i);
            assert(types[i] == args[i].1);
        }
        text::lemma_gathered(pieces, all);
        let r = Codec::Tuple(list);
        let whole = TyView::Tuple(types);
        assert(ty::bare(whole) == whole);
        assert(ty::head(whole).len() == 0);
        assert(ty::tuple_types(whole) == types);
        numbers::lemma_names();
        lemma_plain(ty::head(whole));
        r
    }
}

proof fn lemma_shown_all(list: Seq<Codec>)
    ensures
        shown_all(list).len() == list.len(),
        forall|i: int| 0 <= i < list.len() ==> #[trigger] shown_all(list)[i] == list[i].shown(),
    decreases list.len(),
{
    if list.len() > 0 {
        lemma_shown_all(list.drop_last());
    }
}

proof fn lemma_codec_at(types: Seq<TyView>, structs: Seq<StructView>, i: int)
    requires
        0 <= i < types.len(),
        expr::codec_list(types, structs) is Some,
    ensures
        expr::codec_list(types, structs)->0.len() == types.len(),
        expr::codec(types[i], structs) == Some(expr::codec_list(types, structs)->0[i]),
    decreases types.len(),
{
    let n = types.len() - 1;
    if n > 0 {
        let k = if i < n {
            i
        } else {
            0
        };
        lemma_codec_at(types.drop_last(), structs, k);
    } else {
        assert(expr::codec_list(types.drop_last(), structs) == Some(Seq::<Seq<char>>::empty()));
    }
}

/// Where all arguments are scalars nothing is encoded.
pub proof fn law_scalars_are_not_encoded(f: FnView, structs: Seq<StructView>)
    requires
        forall|i: int|
            0 <= i < f.args.len() ==> expr::is_direct_name(
                ty::head(ty::bare((#[trigger] f.args[i]).1)),
            ),
    ensures
        module::fn_codec(f, structs) == Some(Seq::<char>::empty()),
{
    assert forall|i: int| 0 <= i < f.args.len() implies expr::is_scalar_ty(
        (#[trigger] f.args[i]).1,
    ) by {
    }
}

/// A struct is encoded field by field: the codec of each field, in their order
/// and under its name, writes the archive of the field's type.
pub proof fn law_struct_is_encoded_field_by_field(s: StructView, structs: Seq<StructView>) -> (r: (
    Seq<Codec>,
    Seq<Seq<char>>,
))
    requires
        forall|i: int| 0 <= i < s.fields.len() ==> encodable((#[trigger] s.fields[i]).1, structs),
    ensures
        r.0.len() == s.fields.len(),
        r.1.len() == s.fields.len(),
        forall|i: int|
            0 <= i < s.fields.len() ==> writes(r.0[i], (#[trigger] s.fields[i]).1, structs)
                && r.1[i] == "  "@ + s.fields[i].0 + ": "@ + r.0[i].shown() + ",\n"@,
        module::struct_codec(s, structs) == Some(
            "export const Archived"@ + s.name + " = r.struct({\n"@ + text::concat(r.1)
                + "});\n\n"@,
        ),
{
    let types = types_of_args(s.fields);
    assert forall|i: int| 0 <= i < types.len() implies encodable(#[trigger] types[i], structs) by {
        assert(types[i] == s.fields[i].1);
    }
    let list = lemma_tuple(types, structs);
    lemma_shown_all(list);
    let lines = Seq::new(
        s.fields.len(),
        |i: int| "  "@ + s.fields[i].0 + ": "@ + list[i].shown() + ",\n"@,
    );
    let pieces = s.fields.map_values(|f: FieldView| module::field_codec(f, structs));
    assert forall|i: int| 0 <= i < pieces.len() implies pieces[i] == Some(#[trigger] lines[i]) by {
        lemma_codec_at(types, structs, i);
        assert(shown_all(list)[i] == list[i].shown());
        assert(types[i] == s.fields[i].1);
    }
    text::lemma_gathered(pieces, lines);
    assert forall|i: int| 0 <= i < s.fields.len() implies writes(
        list[i],
        (#[trigger] s.fields[i]).1,
        structs,
    ) && lines[i] == "  "@ + s.fields[i].0 + ": "@ + list[i].shown() + ",\n"@ by {
        assert(writes(list[i], types[i], structs));
    }
    (list, lines)
}

/// Arguments and fields of which one cannot be encoded have no codec together.
pub proof fn law_no_codec_without_its_parts(
    f: FnView,
    s: StructView,
    structs: Seq<StructView>,
    i: int,
)
    ensures
        0 <= i < f.args.len() && !encodable(f.args[i].1, structs) && !reading::names_number(
            ty::head(ty::bare(f.args[i].1)),
        ) ==> module::fn_codec(f, structs) is None,
        0 <= i < s.fields.len() && !encodable(s.fields[i].1, structs) ==> module::struct_codec(
            s,
            structs,
        ) is None,
{
    if 0 <= i < f.args.len() && !encodable(f.args[i].1, structs) {
        law_what_cannot_be_encoded_has_no_codec(f.args[i].1, structs);
        numbers::law_numbers_cross_directly(ty::head(ty::bare(f.args[i].1)));
        assert(!expr::is_scalar_ty(f.args[i].1));
        let pieces = method::arg_codecs(f.args, structs);
        assert(pieces[i] is None);
        text::lemma_missing(pieces, i);
    }
    if 0 <= i < s.fields.len() && !encodable(s.fields[i].1, structs) {
        law_what_cannot_be_encoded_has_no_codec(s.fields[i].1, structs);
        let pieces = s.fields.map_values(|f: FieldView| module::field_codec(f, structs));
        assert(pieces[i] is None);
        text::lemma_missing(pieces, i);
    }
}

} // verus!
