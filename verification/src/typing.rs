//! Typing: which values each TypeScript type has, and that what is read has the
//! type that is declared for it.
use crate::encoding;
use crate::expr;
use crate::layout;
use crate::meta::FieldView;
use crate::meta::StructView;
use crate::module;
use crate::numbers;
use crate::numbers::Family;
use crate::order;
use crate::reading;
use crate::reading::Memory;
use crate::reading::Value;
use crate::text;
use crate::ty;
use crate::ty::TyView;
use vstd::prelude::*;

verus! {

/// A TypeScript type.
pub enum Ts {
    Named(Seq<char>),
    OrNull(Box<Ts>),
    ListOf(Box<Ts>),
    Tuple(Seq<Ts>),
}

impl Ts {
    /// The text of the type.
    pub open spec fn shown(self) -> Seq<char>
        decreases self,
    {
        match self {
            Ts::Named(name) => name,
            Ts::OrNull(inner) => inner.shown() + " | null"@,
            Ts::ListOf(inner) => inner.shown() + "[]"@,
            Ts::Tuple(list) => "["@ + text::join(shown_all(list), ", "@) + "]"@,
        }
    }

    /// The value is of the type.
    pub open spec fn has(self, value: Value) -> bool
        decreases self,
    {
        match self {
            Ts::Named(name) => match value {
                Value::Truth(_) => name == "boolean"@,
                Value::Character(_) => name == "string"@,
                Value::Text(_) => name == "string"@,
                Value::Number(family, bytes) => if numbers::is_big(family, bytes.len()) {
                    name == "bigint"@
                } else {
                    name == "number"@
                },
                Value::Record(of, _) => name == of,
                Value::Nothing => false,
                Value::List(list) => exists|family: Family, size: nat|
                    #![trigger numbers::array_name(family, size)]
                    name == numbers::array_name(family, size) && forall|i: int|
                        0 <= i < list.len() ==> ((#[trigger] list[i]) matches Value::Number(f, b)
                            && f == family && b.len() == size),
            },
            Ts::OrNull(inner) => value is Nothing || inner.has(value),
            Ts::ListOf(inner) => value matches Value::List(list) && forall|i: int|
                0 <= i < list.len() ==> inner.has(#[trigger] list[i]),
            Ts::Tuple(types) => value matches Value::List(list) && list.len() == types.len()
                && forall|i: int|
                0 <= i < types.len() ==> (#[trigger] types[i]).has(list[i]),
        }
    }
}

/// The texts of a list of types.
pub open spec fn shown_all(list: Seq<Ts>) -> Seq<Seq<char>>
    decreases list,
{
    if list.len() == 0 {
        Seq::empty()
    } else {
        shown_all(list.drop_last()).push(list[list.len() - 1].shown())
    }
}

/// No struct has the name of a number that JavaScript cannot read.
pub open spec fn no_struct_is_a_number(structs: Seq<StructView>) -> bool {
    order::fields_named(structs, "u128"@) is None && order::fields_named(structs, "i128"@) is None
}

/// What is declared of a name without parts.
proof fn lemma_plain(ty: TyView)
    requires
        ({
            let name = ty::head(ty::bare(ty));
            name == "bool"@ || name == "char"@ || reading::names_number(name)
                || reading::names_text(name)
        }),
    ensures
        ({
            let name = ty::head(ty::bare(ty));
            &&& name == "bool"@ ==> expr::ts_name(ty) == Some("boolean"@)
            &&& name == "char"@ || reading::names_text(name) ==> expr::ts_name(ty) == Some(
                "string"@,
            )
            &&& reading::names_number(name) ==> expr::ts_name(ty) == Some(
                if numbers::is_big(reading::number_of(name).0, reading::number_of(name).1) {
                    "bigint"@
                } else {
                    "number"@
                },
            )
        }),
{
    let name = ty::head(ty::bare(ty));
    numbers::lemma_names();
    if reading::names_number(name) {
        reading::lemma_number_of(name);
        numbers::lemma_number_names();
        let (family, size) = reading::number_of(name);
        numbers::law_numbers_are_declared(ty, family, size);
    } else {
        numbers::lemma_only_paths_have_names(ty);
    }
}

/// What is read has the type that is declared for it: whatever is in the memory,
/// what the archive of a value holds is of the TypeScript type of the value's
/// type.
#[verifier::rlimit(60)]
pub proof fn law_values_have_the_declared_type(ty: TyView, structs: Seq<StructView>) -> (r: Ts)
    requires
        no_struct_is_a_number(structs),
        encoding::encodable(ty, structs),
    ensures
        expr::ts_name(ty) == Some(r.shown()),
        forall|memory: Memory, at: int|
            r.has(#[trigger] reading::held(ty, structs, memory, at)),
    decreases ty,
{
    let t = ty::bare(ty);
    let name = ty::head(t);
    let args = ty::type_args(t);
    numbers::lemma_names();
    reading::lemma_kinds(name);
    if name == "bool"@ || name == "char"@ || reading::names_number(name) || reading::names_text(
        name,
    ) {
        lemma_plain(ty);
        if reading::names_number(name) {
            reading::lemma_number_of(name);
            numbers::lemma_number_names();
        }
        Ts::Named(expr::ts_name(ty)->0)
    } else if reading::names_list(name) || name == "Option"@ || reading::names_pointer(name) {
        let el = args[0];
        ty::lemma_type_args_smaller(ty, 0);
        let inner = law_values_have_the_declared_type(el, structs);
        if reading::names_pointer(name) {
            assert forall|memory: Memory, at: int|
                inner.has(#[trigger] reading::held(ty, structs, memory, at)) by {
                assert(inner.has(
                    reading::held(el, structs, memory, reading::target(memory, at)),
                ));
            }
            inner
        } else if name == "Option"@ {
            let r = Ts::OrNull(Box::new(inner));
            assert forall|memory: Memory, at: int|
                r.has(#[trigger] reading::held(ty, structs, memory, at)) by {
                assert(inner.has(
                    reading::held(el, structs, memory, at + reading::align_of(el, structs)),
                ));
            }
            r
        } else if expr::typed_array(el) is Some {
            let (family, size) = reading::lemma_view(el, structs);
            let r = Ts::Named(numbers::array_name(family, size));
            assert forall|memory: Memory, at: int|
                r.has(#[trigger] reading::held(ty, structs, memory, at)) by {
                let h = reading::held(ty, structs, memory, at);
                assert(h is List);
                assert forall|i: int| 0 <= i < h->List_0.len() implies (
                (#[trigger] h->List_0[i]) matches Value::Number(f, b) && f == family && b.len()
                    == size) by {
                    assert(h->List_0[i] == reading::held(
                        el,
                        structs,
                        memory,
                        reading::target(memory, at) + i * reading::size_of(el, structs),
                    ));
                }
                assert(r->Named_0 == numbers::array_name(family, size));
            }
            r
        } else {
            let r = Ts::ListOf(Box::new(inner));
            assert forall|memory: Memory, at: int|
                r.has(#[trigger] reading::held(ty, structs, memory, at)) by {
                let h = reading::held(ty, structs, memory, at);
                assert(h is List);
                assert forall|i: int| 0 <= i < h->List_0.len() implies inner.has(
                    #[trigger] h->List_0[i],
                ) by {
                    assert(h->List_0[i] == reading::held(
                        el,
                        structs,
                        memory,
                        reading::target(memory, at) + i * reading::size_of(el, structs),
                    ));
                }
            }
            r
        }
    } else if let TyView::Array(el, n) = t {
        assert(name.len() == 0);
        ty::lemma_parts_smaller(ty);
        let inner = law_values_have_the_declared_type(*el, structs);
        let r = Ts::ListOf(Box::new(inner));
        assert forall|memory: Memory, at: int|
            r.has(#[trigger] reading::held(ty, structs, memory, at)) by {
            let h = reading::held(ty, structs, memory, at);
            assert(h is List);
            assert forall|i: int| 0 <= i < h->List_0.len() implies inner.has(
                #[trigger] h->List_0[i],
            ) by {
                assert(h->List_0[i] == reading::held(
                    *el,
                    structs,
                    memory,
                    at + i * reading::size_of(*el, structs),
                ));
            }
        }
        r
    } else if ty::tuple_types(ty).len() > 0 {
        assert(name.len() == 0);
        let types = ty::tuple_types(ty);
        ty::lemma_parts_smaller(ty);
        let list = lemma_tuple(types, structs);
        let r = Ts::Tuple(list);
        assert forall|memory: Memory, at: int|
            r.has(#[trigger] reading::held(ty, structs, memory, at)) by {
            let h = reading::held(ty, structs, memory, at);
            assert(h is List);
            assert forall|i: int| 0 <= i < list.len() implies (#[trigger] list[i]).has(
                h->List_0[i],
            ) by {
                assert(h->List_0[i] == reading::held(
                    types[i],
                    structs,
                    memory,
                    at + layout::offset(types, i, structs)->Some_0,
                ));
            }
        }
        r
    } else {
        if layout::scalar(name) is Some {
            let (family, size) = numbers::law_scalars_are_numbers(name);
            numbers::lemma_number_names();
            assert(size > 8) by {
                if size <= 8 {
                    assert(size <= 8 && numbers::is_number(name, family, size));
                }
            }
        }
        Ts::Named(name)
    }
}

proof fn lemma_tuple(types: Seq<TyView>, structs: Seq<StructView>) -> (list: Seq<Ts>)
    requires
        no_struct_is_a_number(structs),
        forall|i: int|
            0 <= i < types.len() ==> encoding::encodable(#[trigger] types[i], structs),
    ensures
        list.len() == types.len(),
        expr::ts_names(types) == Some(shown_all(list)),
        forall|i: int, memory: Memory, at: int|
            0 <= i < types.len() ==> list[i].has(
                #[trigger] reading::held(types[i], structs, memory, at),
            ),
    decreases types,
{
    if types.len() == 0 {
        assert(shown_all(Seq::<Ts>::empty()) =~= Seq::empty());
        Seq::empty()
    } else {
        let front = types.drop_last();
        let n = types.len() - 1;
        assert forall|i: int| 0 <= i < front.len() implies encoding::encodable(
            #[trigger] front[i],
            structs,
        ) by {
            assert(front[i] == types[i]);
        }
        let before = lemma_tuple(front, structs);
        assert(decreases_to!(types => types[types.len() - 1]));
        let last = law_values_have_the_declared_type(types[n], structs);
        let list = before.push(last);
        assert(list.drop_last() =~= before);
        assert forall|i: int, memory: Memory, at: int| 0 <= i < types.len() implies list[i].has(
            #[trigger] reading::held(types[i], structs, memory, at),
        ) by {
            if i < n {
                assert(front[i] == types[i]);
                assert(before[i].has(reading::held(front[i], structs, memory, at)));
            }
        }
        list
    }
}

proof fn lemma_shown_all(list: Seq<Ts>)
    ensures
        shown_all(list).len() == list.len(),
        forall|i: int| 0 <= i < list.len() ==> #[trigger] shown_all(list)[i] == list[i].shown(),
    decreases list.len(),
{
    if list.len() > 0 {
        lemma_shown_all(list.drop_last());
    }
}

proof fn lemma_type_at(types: Seq<TyView>, i: int)
    requires
        0 <= i < types.len(),
        expr::ts_names(types) is Some,
    ensures
        expr::ts_names(types)->0.len() == types.len(),
        expr::ts_name(types[i]) == Some(expr::ts_names(types)->0[i]),
    decreases types.len(),
{
    let n = types.len() - 1;
    if n > 0 {
        let k = if i < n {
            i
        } else {
            0
        };
        lemma_type_at(types.drop_last(), k);
    } else {
        assert(expr::ts_names(types.drop_last()) == Some(Seq::<Seq<char>>::empty()));
    }
}

/// A struct is declared field by field: each field, in their order and under its
/// name, with a type that has whatever the archive of the field holds.
pub proof fn law_struct_is_declared_field_by_field(s: StructView, structs: Seq<StructView>) -> (r: (
    Seq<Ts>,
    Seq<Seq<char>>,
))
    requires
        no_struct_is_a_number(structs),
        forall|i: int|
            0 <= i < s.fields.len() ==> encoding::encodable((#[trigger] s.fields[i]).1, structs),
    ensures
        r.0.len() == s.fields.len(),
        r.1.len() == s.fields.len(),
        forall|i: int, memory: Memory, at: int|
            0 <= i < s.fields.len() ==> r.0[i].has(
                #[trigger] reading::held(s.fields[i].1, structs, memory, at),
            ),
        forall|i: int|
            0 <= i < s.fields.len() ==> (#[trigger] r.1[i]) == "  "@ + s.fields[i].0 + ": "@
                + r.0[i].shown() + ";\n"@,
        module::interface(s) == Some(
            "export interface "@ + s.name + " {\n"@ + text::concat(r.1) + "}\n\n"@,
        ),
{
    let types = encoding::types_of_args(s.fields);
    assert forall|i: int| 0 <= i < types.len() implies encoding::encodable(
        #[trigger] types[i],
        structs,
    ) by {
        assert(types[i] == s.fields[i].1);
    }
    let list = lemma_tuple(types, structs);
    lemma_shown_all(list);
    let lines = Seq::new(
        s.fields.len(),
        |i: int| "  "@ + s.fields[i].0 + ": "@ + list[i].shown() + ";\n"@,
    );
    let pieces = s.fields.map_values(|f: FieldView| module::field_declaration(f));
    assert forall|i: int| 0 <= i < pieces.len() implies pieces[i] == Some(#[trigger] lines[i]) by {
        lemma_type_at(types, i);
        assert(shown_all(list)[i] == list[i].shown());
        assert(types[i] == s.fields[i].1);
    }
    text::lemma_gathered(pieces, lines);
    assert forall|i: int, memory: Memory, at: int| 0 <= i < s.fields.len() implies list[i].has(
        #[trigger] reading::held(s.fields[i].1, structs, memory, at),
    ) by {
        assert(types[i] == s.fields[i].1);
        assert(list[i].has(reading::held(types[i], structs, memory, at)));
    }
    (list, lines)
}

/// What is neither a number, a truth value, a character or text nor made of others is
/// declared under its own name, known or not. What needs an argument and has none is
/// not declared, and neither is what is made of something that is not.
pub proof fn law_other_names_are_declared_as_they_are(ty: TyView, i: int)
    ensures
        ({
            let name = ty::head(ty::bare(ty));
            let args = ty::type_args(ty::bare(ty));
            let outer = reading::names_list(name) || name == "Option"@ || reading::names_pointer(
                name,
            );
            &&& ty::bare(ty) is Path && layout::scalar(name) is None && !reading::names_text(name)
                && !outer ==> expr::ts_name(ty) == Some(name)
            &&& outer && args.len() == 0 ==> expr::ts_name(ty) is None
            &&& outer && args.len() > 0 && expr::ts_name(args[0]) is None ==> expr::ts_name(
                ty,
            ) is None
            &&& ty::bare(ty) matches TyView::Array(el, _) ==> (expr::ts_name(*el) is None
                ==> expr::ts_name(ty) is None)
            &&& 0 <= i < ty::tuple_types(ty).len() && expr::ts_name(ty::tuple_types(ty)[i]) is None
                ==> expr::ts_name(ty) is None
        }),
{
    let name = ty::head(ty::bare(ty));
    numbers::lemma_names();
    reading::lemma_kinds(name);
    if ty::bare(ty) is Array || ty::tuple_types(ty).len() > 0 {
        assert(name.len() == 0);
    }
    let types = ty::tuple_types(ty);
    if 0 <= i < types.len() && expr::ts_name(types[i]) is None {
        lemma_not_declared(types, i);
    }
}

proof fn lemma_not_declared(types: Seq<TyView>, i: int)
    requires
        0 <= i < types.len(),
        expr::ts_name(types[i]) is None,
    ensures
        expr::ts_names(types) is None,
    decreases types.len(),
{
    if i < types.len() - 1 {
        lemma_not_declared(types.drop_last(), i);
    }
}

} // verus!
