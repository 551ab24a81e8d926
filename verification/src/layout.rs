//! The archived layout: size and alignment of each type in an archive.
use crate::meta;
use crate::meta::FieldView;
use crate::meta::StructMeta;
use crate::meta::StructView;
use crate::numbers;
use crate::order;
use crate::text;
use crate::ty;
use crate::ty::Ty;
use crate::ty::TyView;
use vstd::prelude::*;

verus! {

/// The first multiple of `a` that is not below `x`.
pub open spec fn aligned(x: nat, a: nat) -> nat {
    ((x + a - 1) as nat / a) * a
}

/// Size and alignment of a scalar.
pub open spec fn scalar(name: Seq<char>) -> Option<(nat, nat)> {
    if name == "bool"@ || name == "u8"@ || name == "i8"@ {
        Some((1, 1))
    } else if name == "u16"@ || name == "i16"@ {
        Some((2, 2))
    } else if name == "u32"@ || name == "i32"@ || name == "f32"@ || name == "usize"@ || name
        == "isize"@ || name == "char"@ {
        Some((4, 4))
    } else if name == "u64"@ || name == "i64"@ || name == "f64"@ {
        Some((8, 8))
    } else if name == "u128"@ || name == "i128"@ {
        Some((16, 16))
    } else {
        None
    }
}

/// Is it a type of text?
pub open spec fn is_string(name: Seq<char>) -> bool {
    name == "String"@ || name == "str"@ || name == "SmolStr"@
}

/// Is it a list?
pub open spec fn is_list(name: Seq<char>) -> bool {
    name == "Vec"@ || name == "ThinVec"@ || name == "SmallVec"@ || name == "TinyVec"@ || name
        == "ArrayVec"@
}

/// Is it a pointer?
pub open spec fn is_pointer(name: Seq<char>) -> bool {
    name == "Box"@ || name == "Rc"@ || name == "Arc"@
}

/// `n` is an offset that the generator can count to.
pub open spec fn fits(n: nat) -> bool {
    n <= u32::MAX
}

/// An optional value: a byte that tells whether there is one, and the value
/// at the next multiple of its alignment.
pub open spec fn optional(size: nat, align: nat) -> Option<(nat, nat)> {
    let end = aligned(1, align) + size;
    if fits(end + align) {
        Some((aligned(end, align), align))
    } else {
        None
    }
}

/// An array: `n` values side by side.
pub open spec fn repeated(size: nat, align: nat, n: nat) -> Option<(nat, nat)> {
    if fits(n * size) {
        Some((n * size, align))
    } else {
        None
    }
}

/// The types of a list of fields.
pub open spec fn field_types(fields: Seq<FieldView>) -> Seq<TyView> {
    fields.map_values(|f: FieldView| f.1)
}

/// Size and alignment of the archived form of `ty`, where structs may be
/// nested `depth` deep. There is none for a type that no archive can hold, for
/// a generic type without the argument that it needs, and for one that is too
/// large.
pub open spec fn layout(ty: TyView, structs: Seq<StructView>, depth: nat) -> Option<(nat, nat)>
    decreases depth, ty,
{
    let t = ty::bare(ty);
    let name = ty::head(t);
    let args = ty::type_args(t);
    if scalar(name) is Some {
        scalar(name)
    } else if is_string(name) || is_list(name) {
        Some((8, 4))
    } else if is_pointer(name) {
        Some((4, 4))
    } else if name == "Option"@ {
        if args.len() == 0 {
            None
        } else {
            proof {
                ty::lemma_type_args_smaller(ty, 0);
            }
            match layout(args[0], structs, depth) {
                None => None,
                Some((size, align)) => optional(size, align),
            }
        }
    } else if let TyView::Array(el, n) = t {
        proof {
            ty::lemma_parts_smaller(ty);
        }
        match layout(*el, structs, depth) {
            None => None,
            Some((size, align)) => repeated(size, align, n),
        }
    } else if ty::tuple_types(ty).len() > 0 {
        proof {
            ty::lemma_parts_smaller(ty);
        }
        closed_up(extent(ty::tuple_types(ty), structs, depth))
    } else {
        match order::fields_named(structs, name) {
            None => None,
            Some(fields) => if depth == 0 {
                None
            } else {
                closed_up(extent(field_types(fields), structs, (depth - 1) as nat))
            },
        }
    }
}

/// Where a value of this size and alignment ends that follows others, and the
/// greatest alignment among them.
pub open spec fn placed(before: (nat, nat), value: (nat, nat)) -> Option<(nat, nat)> {
    let (end, greatest) = before;
    let (size, align) = value;
    if fits(end + align) && fits(aligned(end, align) + size) {
        Some(
            (
                aligned(end, align) + size,
                if greatest < align {
                    align
                } else {
                    greatest
                },
            ),
        )
    } else {
        None
    }
}

/// Where the last of these values ends, and the greatest alignment among them.
/// Each starts at the next multiple of its alignment.
pub open spec fn extent(types: Seq<TyView>, structs: Seq<StructView>, depth: nat) -> Option<
    (nat, nat),
>
    decreases depth, types,
{
    if types.len() == 0 {
        Some((0, 1))
    } else {
        match (
            extent(types.drop_last(), structs, depth),
            layout(types[types.len() - 1], structs, depth),
        ) {
            (Some(before), Some(last)) => placed(before, last),
            _ => None,
        }
    }
}

/// A struct or a tuple ends at a multiple of its alignment.
pub open spec fn closed_up(extent: Option<(nat, nat)>) -> Option<(nat, nat)> {
    match extent {
        None => None,
        Some((end, align)) => if fits(end + align) {
            Some((aligned(end, align), align))
        } else {
            None
        },
    }
}

/// Size and alignment of the archived form of `ty`.
pub open spec fn archived_layout(ty: TyView, structs: Seq<StructView>) -> Option<(nat, nat)> {
    layout(ty, structs, structs.len())
}

/// Where a value starts that follows others.
pub open spec fn offset(types: Seq<TyView>, i: int, structs: Seq<StructView>) -> Option<nat> {
    match (extent(types.take(i), structs, structs.len()), archived_layout(types[i], structs)) {
        (Some((end, _)), Some((_, align))) => Some(aligned(end, align)),
        _ => None,
    }
}

/// An alignment that occurs.
pub open spec fn is_alignment(a: nat) -> bool {
    a == 1 || a == 2 || a == 4 || a == 8 || a == 16
}

/// [`aligned`] moves up by less than the alignment, to a multiple of it.
pub proof fn lemma_aligned(x: nat, a: nat)
    requires
        is_alignment(a),
    ensures
        x <= aligned(x, a) < x + a,
        aligned(x, a) % a == 0,
{
}

/// The first multiple of an alignment that is not zero is the alignment.
pub proof fn lemma_first_multiple(a: nat)
    requires
        is_alignment(a),
    ensures
        aligned(1, a) == a,
{
    if a == 1 {
        assert(aligned(1, 1) == 1);
    } else if a == 2 {
        assert(aligned(1, 2) == 2);
    } else if a == 4 {
        assert(aligned(1, 4) == 4);
    } else if a == 8 {
        assert(aligned(1, 8) == 8);
    } else {
        assert(aligned(1, 16) == 16);
    }
}

proof fn lemma_repeated(size: nat, align: nat, n: nat)
    requires
        is_alignment(align),
        size % align == 0,
    ensures
        (n * size) % align == 0,
{
    let k = size / align;
    vstd::arithmetic::div_mod::lemma_fundamental_div_mod(size as int, align as int);
    assert(n * size == align * (n * k)) by (nonlinear_arith)
        requires
            size == align * k,
    ;
    vstd::arithmetic::div_mod::lemma_mod_multiples_basic((n * k) as int, align as int);
    assert(align * (n * k) == (n * k) * align) by (nonlinear_arith);
}

/// Every alignment is one of 1, 2, 4, 8 and 16, and every size is a multiple
/// of the alignment.
pub proof fn law_sizes_are_aligned(ty: TyView, structs: Seq<StructView>, depth: nat)
    ensures
        layout(ty, structs, depth) matches Some((size, align)) ==> is_alignment(align) && size
            % align == 0,
    decreases depth, ty,
{
    let t = ty::bare(ty);
    let name = ty::head(t);
    let args = ty::type_args(t);
    if scalar(name) is Some || is_string(name) || is_list(name) || is_pointer(name) {
        assert(1nat % 1 == 0 && 2nat % 2 == 0 && 4nat % 4 == 0 && 8nat % 8 == 0 && 8nat % 4 == 0
            && 16nat % 16 == 0);
    } else if name == "Option"@ {
        if args.len() > 0 {
            ty::lemma_type_args_smaller(ty, 0);
            law_sizes_are_aligned(args[0], structs, depth);
            if let Some((size, align)) = layout(args[0], structs, depth) {
                lemma_aligned(aligned(1, align) + size, align);
            }
        }
    } else if let TyView::Array(el, n) = t {
        ty::lemma_parts_smaller(ty);
        law_sizes_are_aligned(*el, structs, depth);
        if let Some((size, align)) = layout(*el, structs, depth) {
            lemma_repeated(size, align, n);
        }
    } else if ty::tuple_types(ty).len() > 0 {
        let types = ty::tuple_types(ty);
        ty::lemma_parts_smaller(ty);
        lemma_extent(types, structs, depth);
        if let Some((end, align)) = extent(types, structs, depth) {
            lemma_aligned(end, align);
        }
    } else if let Some(fields) = order::fields_named(structs, name) {
        if depth > 0 {
            let types = field_types(fields);
            lemma_extent(types, structs, (depth - 1) as nat);
            if let Some((end, align)) = extent(types, structs, (depth - 1) as nat) {
                lemma_aligned(end, align);
            }
        }
    }
}

proof fn lemma_extent(types: Seq<TyView>, structs: Seq<StructView>, depth: nat)
    ensures
        extent(types, structs, depth) matches Some((_, align)) ==> is_alignment(align),
    decreases depth, types,
{
    if types.len() > 0 {
        lemma_extent(types.drop_last(), structs, depth);
        assert(decreases_to!(types => types[types.len() - 1]));
        law_sizes_are_aligned(types[types.len() - 1], structs, depth);
    }
}

/// The fields of a struct and the elements of a tuple do not overlap: each starts
/// at a multiple of its alignment, behind the end of the one before it, and all
/// end within the whole.
pub proof fn law_fields_do_not_overlap(types: Seq<TyView>, structs: Seq<StructView>)
    requires
        closed_up(extent(types, structs, structs.len())) is Some,
    ensures
        forall|i: int|
            0 <= i < types.len() ==> {
                &&& (#[trigger] offset(types, i, structs)) is Some
                &&& archived_layout(types[i], structs) is Some
                &&& offset(types, i, structs)->0 % archived_layout(types[i], structs)->Some_0.1 == 0
                &&& offset(types, i, structs)->0 + archived_layout(types[i], structs)->Some_0.0
                    <= closed_up(extent(types, structs, structs.len()))->Some_0.0
            },
        forall|i: int, j: int|
            0 <= i < j < types.len() ==> (#[trigger] offset(types, i, structs))->0
                + archived_layout(types[i], structs)->Some_0.0 <= (#[trigger] offset(
                types,
                j,
                structs,
            ))->0,
{
    let depth = structs.len();
    lemma_extent(types, structs, depth);
    let (end, align) = extent(types, structs, depth)->0;
    lemma_aligned(end, align);
    assert(types.take(types.len() as int) =~= types);
    assert forall|i: int| 0 <= i < types.len() implies {
        &&& (#[trigger] offset(types, i, structs)) is Some
        &&& archived_layout(types[i], structs) is Some
        &&& offset(types, i, structs)->0 % archived_layout(types[i], structs)->Some_0.1 == 0
        &&& offset(types, i, structs)->0 + archived_layout(types[i], structs)->Some_0.0
            <= closed_up(extent(types, structs, depth))->Some_0.0
    } by {
        lemma_field_in_extent(types, i, types.len() as int, structs);
    }
    assert forall|i: int, j: int| 0 <= i < j < types.len() implies (#[trigger] offset(
        types,
        i,
        structs,
    ))->0 + archived_layout(types[i], structs)->Some_0.0 <= (#[trigger] offset(
        types,
        j,
        structs,
    ))->0 by {
        lemma_field_in_extent(types, j, types.len() as int, structs);
        lemma_field_in_extent(types, i, j, structs);
        law_sizes_are_aligned(types[j], structs, depth);
        lemma_aligned(
            extent(types.take(j), structs, depth)->Some_0.0,
            archived_layout(types[j], structs)->Some_0.1,
        );
    }
}

proof fn lemma_field_in_extent(types: Seq<TyView>, i: int, n: int, structs: Seq<StructView>)
    requires
        0 <= i < n <= types.len(),
        extent(types.take(n), structs, structs.len()) is Some,
    ensures
        extent(types.take(i), structs, structs.len()) is Some,
        offset(types, i, structs) is Some,
        archived_layout(types[i], structs) is Some,
        offset(types, i, structs)->0 % archived_layout(types[i], structs)->Some_0.1 == 0,
        offset(types, i, structs)->0 + archived_layout(types[i], structs)->Some_0.0 <= extent(
            types.take(n),
            structs,
            structs.len(),
        )->Some_0.0,
    decreases n,
{
    let depth = structs.len();
    let front = types.take(n);
    assert(front.drop_last() =~= types.take(n - 1));
    assert(front[front.len() - 1] == types[n - 1]);
    let (end, _) = extent(types.take(n - 1), structs, depth)->0;
    let (size, align) = layout(types[n - 1], structs, depth)->0;
    law_sizes_are_aligned(types[n - 1], structs, depth);
    lemma_aligned(end, align);
    if i < n - 1 {
        lemma_field_in_extent(types, i, n - 1, structs);
    }
}

// How deep structs can be nested.

proof fn lemma_deeper(ty: TyView, structs: Seq<StructView>, depth: nat)
    requires
        layout(ty, structs, depth) is Some,
    ensures
        layout(ty, structs, depth + 1) == layout(ty, structs, depth),
    decreases depth, ty,
{
    let t = ty::bare(ty);
    let name = ty::head(t);
    let args = ty::type_args(t);
    if scalar(name) is Some || is_string(name) || is_list(name) || is_pointer(name) {
    } else if name == "Option"@ {
        ty::lemma_type_args_smaller(ty, 0);
        lemma_deeper(args[0], structs, depth);
    } else if let TyView::Array(el, _) = t {
        ty::lemma_parts_smaller(ty);
        lemma_deeper(*el, structs, depth);
    } else if ty::tuple_types(ty).len() > 0 {
        ty::lemma_parts_smaller(ty);
        lemma_deeper_extent(ty::tuple_types(ty), structs, depth);
    } else {
        lemma_deeper_extent(
            field_types(order::fields_named(structs, name)->0),
            structs,
            (depth - 1) as nat,
        );
    }
}

proof fn lemma_deeper_extent(types: Seq<TyView>, structs: Seq<StructView>, depth: nat)
    requires
        extent(types, structs, depth) is Some,
    ensures
        extent(types, structs, depth + 1) == extent(types, structs, depth),
    decreases depth, types,
{
    if types.len() > 0 {
        lemma_deeper_extent(types.drop_last(), structs, depth);
        assert(decreases_to!(types => types[types.len() - 1]));
        lemma_deeper(types[types.len() - 1], structs, depth);
    }
}

/// The structs whose layout is there where structs may be nested `depth` deep.
spec fn ready(structs: Seq<StructView>, depth: nat) -> Set<int> {
    Set::new(
        |i: int|
            0 <= i < structs.len() && depth > 0 && closed_up(
                extent(field_types(structs[i].fields), structs, (depth - 1) as nat),
            ) is Some,
    )
}

proof fn lemma_ready_grows(structs: Seq<StructView>, depth: nat)
    ensures
        ready(structs, depth).subset_of(ready(structs, depth + 1)),
{
    assert forall|i: int| #[trigger] ready(structs, depth).contains(i) implies ready(
        structs,
        depth + 1,
    ).contains(i) by {
        lemma_deeper_extent(field_types(structs[i].fields), structs, (depth - 1) as nat);
    }
}

proof fn lemma_fields_named_at(structs: Seq<StructView>, name: Seq<char>) -> (i: int)
    requires
        order::fields_named(structs, name) is Some,
    ensures
        0 <= i < structs.len(),
        structs[i].fields == order::fields_named(structs, name)->0,
    decreases structs.len(),
{
    if structs.last().name == name {
        structs.len() - 1
    } else {
        lemma_fields_named_at(structs.drop_last(), name)
    }
}

proof fn lemma_stable(ty: TyView, structs: Seq<StructView>, depth: nat)
    requires
        ready(structs, depth) == ready(structs, depth + 1),
        layout(ty, structs, depth + 1) is Some,
    ensures
        layout(ty, structs, depth) is Some,
    decreases ty,
{
    let t = ty::bare(ty);
    let name = ty::head(t);
    let args = ty::type_args(t);
    if scalar(name) is Some || is_string(name) || is_list(name) || is_pointer(name) {
    } else if name == "Option"@ {
        ty::lemma_type_args_smaller(ty, 0);
        lemma_stable(args[0], structs, depth);
        lemma_deeper(args[0], structs, depth);
    } else if let TyView::Array(el, _) = t {
        ty::lemma_parts_smaller(ty);
        lemma_stable(*el, structs, depth);
        lemma_deeper(*el, structs, depth);
    } else if ty::tuple_types(ty).len() > 0 {
        ty::lemma_parts_smaller(ty);
        lemma_stable_extent(ty::tuple_types(ty), structs, depth);
    } else {
        let i = lemma_fields_named_at(structs, name);
        assert(ready(structs, depth + 1).contains(i));
        assert(ready(structs, depth).contains(i));
    }
}

proof fn lemma_stable_extent(types: Seq<TyView>, structs: Seq<StructView>, depth: nat)
    requires
        ready(structs, depth) == ready(structs, depth + 1),
        extent(types, structs, depth + 1) is Some,
    ensures
        extent(types, structs, depth) == extent(types, structs, depth + 1),
    decreases types,
{
    if types.len() > 0 {
        lemma_stable_extent(types.drop_last(), structs, depth);
        assert(decreases_to!(types => types[types.len() - 1]));
        lemma_stable(types[types.len() - 1], structs, depth);
        lemma_deeper(types[types.len() - 1], structs, depth);
    }
}

proof fn lemma_stays_stable(structs: Seq<StructView>, depth: nat, more: nat)
    requires
        ready(structs, depth) == ready(structs, depth + 1),
    ensures
        ready(structs, depth + more) == ready(structs, depth + more + 1),
    decreases more,
{
    if more > 0 {
        lemma_stays_stable(structs, depth, (more - 1) as nat);
        let d = (depth + more - 1) as nat;
        lemma_ready_grows(structs, d + 1);
        let later = ready(structs, d + 2);
        assert forall|i: int| #[trigger] later.contains(i) implies ready(structs, d + 1).contains(
            i,
        ) by {
            lemma_stable_extent(field_types(structs[i].fields), structs, d);
        }
        assert(ready(structs, d + 1) =~= ready(structs, d + 2));
    }
}

/// Either nothing new is ready at some depth up to `depth`, or `depth` structs
/// are ready.
proof fn lemma_ready_count(structs: Seq<StructView>, depth: nat)
    ensures
        ready(structs, depth) == ready(structs, depth + 1) || ready(structs, depth).len() >= depth,
        ready(structs, depth).finite(),
        ready(structs, depth).len() <= structs.len(),
    decreases depth,
{
    let all = vstd::set_lib::set_int_range(0, structs.len() as int);
    vstd::set_lib::lemma_int_range(0, structs.len() as int);
    assert(ready(structs, depth).subset_of(all));
    vstd::set_lib::lemma_len_subset(ready(structs, depth), all);
    if depth > 0 {
        let d = (depth - 1) as nat;
        lemma_ready_count(structs, d);
        if ready(structs, d) == ready(structs, depth) {
            lemma_stays_stable(structs, d, 1);
        } else {
            lemma_ready_grows(structs, d);
            if ready(structs, depth).len() < depth {
                assert(ready(structs, d).len() >= d);
                vstd::set_lib::lemma_len_subset(ready(structs, d), ready(structs, depth));
                vstd::set_lib::lemma_subset_equality(ready(structs, d), ready(structs, depth));
            }
        }
    }
}

proof fn lemma_depth_of_all(structs: Seq<StructView>)
    ensures
        ready(structs, structs.len()) == ready(structs, structs.len() + 1),
{
    lemma_ready_count(structs, structs.len());
    lemma_ready_count(structs, structs.len() + 1);
    lemma_ready_grows(structs, structs.len());
    if ready(structs, structs.len()) != ready(structs, structs.len() + 1) {
        vstd::set_lib::lemma_len_subset(
            ready(structs, structs.len()),
            ready(structs, structs.len() + 1),
        );
        vstd::set_lib::lemma_subset_equality(
            ready(structs, structs.len()),
            ready(structs, structs.len() + 1),
        );
    }
}

/// A type whose layout is there at any nesting depth has that layout: no chain
/// of nested structs is longer than the number of structs, so where nothing is
/// found within that depth the nesting has no end.
pub proof fn law_depth_is_enough(ty: TyView, structs: Seq<StructView>, depth: nat)
    requires
        layout(ty, structs, depth) is Some,
    ensures
        archived_layout(ty, structs) == layout(ty, structs, depth),
    decreases
            if depth < structs.len() {
                structs.len() - depth
            } else {
                depth - structs.len()
            },
{
    if depth < structs.len() {
        lemma_deeper(ty, structs, depth);
        law_depth_is_enough(ty, structs, depth + 1);
    } else if depth > structs.len() {
        let d = (depth - 1) as nat;
        lemma_depth_of_all(structs);
        lemma_stays_stable(structs, structs.len(), (d - structs.len()) as nat);
        lemma_stable(ty, structs, d);
        lemma_deeper(ty, structs, d);
        law_depth_is_enough(ty, structs, d);
    }
}

// What the layouts are made of.

/// Text and lists take a pointer and a length, whatever they hold, and pointers
/// a pointer, whatever they lead to.
pub proof fn law_what_is_elsewhere_takes_a_pointer(ty: TyView, structs: Seq<StructView>)
    ensures
        ({
            let name = ty::head(ty::bare(ty));
            &&& name == "String"@ || name == "str"@ || name == "SmolStr"@ || name == "Vec"@ || name
                == "ThinVec"@ || name == "SmallVec"@ || name == "TinyVec"@ || name == "ArrayVec"@
                ==> archived_layout(ty, structs) == Some((8nat, 4nat))
            &&& name == "Box"@ || name == "Rc"@ || name == "Arc"@ ==> archived_layout(ty, structs)
                == Some((4nat, 4nat))
        }),
{
    numbers::lemma_names();
}

/// A scalar lies in an archive as it is, wherever it stands: a number takes as many
/// bytes as its name says, a truth value one and a character four, and each lies at a
/// multiple of its size.
pub proof fn law_scalars_lie_as_they_are(
    ty: TyView,
    structs: Seq<StructView>,
    family: numbers::Family,
    size: nat,
)
    ensures
        numbers::is_number(ty::head(ty::bare(ty)), family, size) ==> archived_layout(ty, structs)
            == Some((size, size)),
        ty::head(ty::bare(ty)) == "bool"@ ==> archived_layout(ty, structs) == Some((1nat, 1nat)),
        ty::head(ty::bare(ty)) == "char"@ ==> archived_layout(ty, structs) == Some((4nat, 4nat)),
{
    let name = ty::head(ty::bare(ty));
    if numbers::is_number(name, family, size) {
        numbers::law_numbers_are_as_wide_as_their_names(name, family, size);
    }
    numbers::law_other_scalars_are_encoded();
}

/// An optional value takes the value and as much before it as the value is
/// aligned to, and is aligned as the value is.
pub proof fn law_optional_value_follows_its_tag(ty: TyView, structs: Seq<StructView>)
    requires
        ty::head(ty::bare(ty)) == "Option"@,
        ty::type_args(ty::bare(ty)).len() > 0,
    ensures
        archived_layout(ty, structs) == match archived_layout(
            ty::type_args(ty::bare(ty))[0],
            structs,
        ) {
            Some((size, align)) => if align + size + align <= 0xffff_ffff {
                Some((align + size, align))
            } else {
                None
            },
            None => None,
        },
{
    numbers::lemma_names();
    let el = ty::type_args(ty::bare(ty))[0];
    law_sizes_are_aligned(el, structs, structs.len());
    if let Some((size, align)) = archived_layout(el, structs) {
        lemma_first_multiple(align);
        lemma_multiple(size, align);
    }
}

/// What is a multiple already is the first one, and so is the next but one
/// alignment.
#[verifier::rlimit(60)]
proof fn lemma_multiple(size: nat, align: nat)
    requires
        is_alignment(align),
        size % align == 0,
    ensures
        aligned(size, align) == size,
        aligned(align + size, align) == align + size,
{
    if align == 1 {
        assert(aligned(size, 1) == size && aligned(1 + size, 1) == 1 + size);
    } else if align == 2 {
        assert(aligned(size, 2) == size && aligned(2 + size, 2) == 2 + size);
    } else if align == 4 {
        assert(aligned(size, 4) == size && aligned(4 + size, 4) == 4 + size);
    } else if align == 8 {
        assert(aligned(size, 8) == size && aligned(8 + size, 8) == 8 + size);
    } else {
        assert(align == 16);
        assert(aligned(size, 16) == size);
        assert(aligned(16 + size, 16) == 16 + size);
    }
}

/// The elements of an array lie side by side.
pub proof fn law_array_is_its_elements(ty: TyView, structs: Seq<StructView>)
    requires
        ty::bare(ty) is Array,
    ensures
        archived_layout(ty, structs) == match archived_layout(
            *ty::bare(ty)->Array_0,
            structs,
        ) {
            Some((size, align)) => if ty::bare(ty)->Array_1 * size <= 0xffff_ffff {
                Some((ty::bare(ty)->Array_1 * size, align))
            } else {
                None
            },
            None => None,
        },
{
    numbers::lemma_names();
    assert(ty::head(ty::bare(ty)).len() == 0);
}

/// A tuple and a struct take what their parts take together: see
/// [`law_parts_are_packed`]. Nothing else but scalars, text, lists, pointers,
/// optional values and arrays has a layout.
pub proof fn law_struct_is_its_fields(ty: TyView, structs: Seq<StructView>)
    ensures
        ty::tuple_types(ty).len() > 0 ==> archived_layout(ty, structs) == closed_up(
            extent(ty::tuple_types(ty), structs, structs.len()),
        ),
        ({
            let name = ty::head(ty::bare(ty));
            &&& scalar(name) is None
            &&& !(name == "String"@ || name == "str"@ || name == "SmolStr"@)
            &&& !(name == "Vec"@ || name == "ThinVec"@ || name == "SmallVec"@ || name == "TinyVec"@
                || name == "ArrayVec"@)
            &&& !(name == "Box"@ || name == "Rc"@ || name == "Arc"@ || name == "Option"@)
            &&& !(ty::bare(ty) is Array)
            &&& ty::tuple_types(ty).len() == 0
        }) ==> archived_layout(ty, structs) == match order::fields_named(
            structs,
            ty::head(ty::bare(ty)),
        ) {
            Some(fields) => closed_up(extent(field_types(fields), structs, structs.len())),
            None => None,
        },
{
    numbers::lemma_names();
    let n = structs.len();
    let name = ty::head(ty::bare(ty));
    if ty::tuple_types(ty).len() > 0 {
        assert(name.len() == 0);
    }
    if archived_layout(ty, structs) is Some {
        lemma_deeper(ty, structs, n);
    } else if layout(ty, structs, n + 1) is Some {
        law_depth_is_enough(ty, structs, n + 1);
    }
}

/// Parts are packed: the first starts at zero, every other one less than its
/// alignment behind the end of the one before it, and the whole ends less than
/// its alignment behind the end of the last one. The whole is aligned as the part
/// is that has the greatest alignment.
#[verifier::rlimit(40)]
pub proof fn law_parts_are_packed(types: Seq<TyView>, structs: Seq<StructView>)
    requires
        closed_up(extent(types, structs, structs.len())) is Some,
    ensures
        ({
            let (size, align) = closed_up(extent(types, structs, structs.len()))->Some_0;
            &&& types.len() == 0 ==> size == 0 && align == 1
            &&& types.len() > 0 ==> offset(types, 0, structs) == Some(0nat)
            &&& forall|i: int|
                0 < i < types.len() ==> (#[trigger] offset(types, i, structs))->Some_0 < offset(
                    types,
                    i - 1,
                    structs,
                )->Some_0 + archived_layout(types[i - 1], structs)->Some_0.0 + archived_layout(
                    types[i],
                    structs,
                )->Some_0.1
            &&& types.len() > 0 ==> size < offset(types, types.len() - 1, structs)->Some_0
                + archived_layout(types[types.len() - 1], structs)->Some_0.0 + align
            &&& size % align == 0
            &&& forall|i: int|
                0 <= i < types.len() ==> archived_layout(#[trigger] types[i], structs)->Some_0.1
                    <= align
            &&& types.len() > 0 ==> exists|i: int|
                0 <= i < types.len() && archived_layout(#[trigger] types[i], structs)->Some_0.1
                    == align
        }),
{
    let n = structs.len();
    let (end, align) = extent(types, structs, n)->Some_0;
    lemma_extent(types, structs, n);
    lemma_aligned(end, align);
    assert(aligned(0, 1) == 0);
    assert(types.take(types.len() as int) =~= types);
    assert forall|i: int| 0 < i < types.len() implies (#[trigger] offset(
        types,
        i,
        structs,
    ))->Some_0 < offset(types, i - 1, structs)->Some_0 + archived_layout(
        types[i - 1],
        structs,
    )->Some_0.0 + archived_layout(types[i], structs)->Some_0.1 by {
        lemma_field_in_extent(types, i, types.len() as int, structs);
        lemma_field_in_extent(types, i - 1, types.len() as int, structs);
        assert(types.take(i).drop_last() =~= types.take(i - 1));
        law_sizes_are_aligned(types[i], structs, n);
        lemma_aligned(
            extent(types.take(i), structs, n)->Some_0.0,
            archived_layout(types[i], structs)->Some_0.1,
        );
    }
    lemma_greatest(types, structs);
    if types.len() > 0 {
        lemma_field_in_extent(types, 0, types.len() as int, structs);
        assert(types.take(0) =~= Seq::empty());
        law_sizes_are_aligned(types[0], structs, n);
        let first = archived_layout(types[0], structs)->Some_0.1;
        lemma_multiple(0, first);
        assert(types.take(types.len() - 1) =~= types.drop_last());
    }
}

proof fn lemma_greatest(types: Seq<TyView>, structs: Seq<StructView>)
    requires
        extent(types, structs, structs.len()) is Some,
    ensures
        ({
            let (_, align) = extent(types, structs, structs.len())->Some_0;
            &&& forall|i: int|
                0 <= i < types.len() ==> archived_layout(#[trigger] types[i], structs)->Some_0.1
                    <= align
            &&& types.len() > 0 ==> exists|i: int|
                0 <= i < types.len() && archived_layout(#[trigger] types[i], structs)->Some_0.1
                    == align
            &&& align >= 1
        }),
    decreases types.len(),
{
    if types.len() > 0 {
        let n = types.len() - 1;
        let front = types.drop_last();
        lemma_greatest(front, structs);
        law_sizes_are_aligned(types[n], structs, structs.len());
        let (_, before) = extent(front, structs, structs.len())->Some_0;
        let (_, align) = extent(types, structs, structs.len())->Some_0;
        assert forall|i: int| 0 <= i < types.len() implies archived_layout(
            #[trigger] types[i],
            structs,
        )->Some_0.1 <= align by {
            if i < n {
                assert(front[i] == types[i]);
            }
        }
        if align == archived_layout(types[n], structs)->Some_0.1 {
            assert(archived_layout(types[n], structs)->Some_0.1 == align);
        } else if front.len() > 0 {
            let i = choose|i: int|
                0 <= i < front.len() && archived_layout(#[trigger] front[i], structs)->Some_0.1
                    == before;
            assert(types[i] == front[i]);
        }
    }
}

/// What the parts take together where each is moved up by its whole alignment.
pub open spec fn room(types: Seq<TyView>, structs: Seq<StructView>) -> nat
    decreases types.len(),
{
    if types.len() == 0 {
        0
    } else {
        let (size, align) = archived_layout(types.last(), structs)->Some_0;
        room(types.drop_last(), structs) + size + align
    }
}

/// Parts that have layouts have one together, unless they are too large; a part
/// that has none is missing in the whole.
pub proof fn law_parts_have_a_layout_together(types: Seq<TyView>, structs: Seq<StructView>)
    ensures
        (forall|i: int|
            0 <= i < types.len() ==> archived_layout(#[trigger] types[i], structs) is Some) && room(
            types,
            structs,
        ) + 16 <= 0xffff_ffff ==> closed_up(extent(types, structs, structs.len())) is Some,
        (exists|i: int|
            0 <= i < types.len() && archived_layout(#[trigger] types[i], structs) is None)
            ==> extent(types, structs, structs.len()) is None,
    decreases types.len(),
{
    if types.len() > 0 {
        let n = types.len() - 1;
        let front = types.drop_last();
        law_parts_have_a_layout_together(front, structs);
        assert(forall|i: int| 0 <= i < front.len() ==> front[i] == types[i]);
        if exists|i: int|
            0 <= i < types.len() && archived_layout(#[trigger] types[i], structs) is None {
            let i = choose|i: int|
                0 <= i < types.len() && archived_layout(#[trigger] types[i], structs) is None;
            if i < n {
                assert(archived_layout(front[i], structs) is None);
            }
        }
    }
    if (forall|i: int|
        0 <= i < types.len() ==> archived_layout(#[trigger] types[i], structs) is Some) && room(
        types,
        structs,
    ) + 16 <= 0xffff_ffff {
        lemma_room(types, structs);
        lemma_extent(types, structs, structs.len());
    }
}

proof fn lemma_room(types: Seq<TyView>, structs: Seq<StructView>)
    requires
        forall|i: int|
            0 <= i < types.len() ==> archived_layout(#[trigger] types[i], structs) is Some,
        room(types, structs) <= 0xffff_ffff,
    ensures
        extent(types, structs, structs.len()) matches Some((end, _)) && end <= room(
            types,
            structs,
        ),
    decreases types.len(),
{
    if types.len() > 0 {
        let n = types.len() - 1;
        let front = types.drop_last();
        assert forall|i: int| 0 <= i < front.len() implies archived_layout(
            #[trigger] front[i],
            structs,
        ) is Some by {
            assert(front[i] == types[i]);
        }
        assert(archived_layout(types[n], structs) is Some);
        lemma_room(front, structs);
        law_sizes_are_aligned(types[n], structs, structs.len());
        let (end, _) = extent(front, structs, structs.len())->Some_0;
        lemma_aligned(end, archived_layout(types[n], structs)->Some_0.1);
    }
}

/// The layouts of the numbers that typed arrays hold.
pub proof fn lemma_number_layouts()
    ensures
        scalar("u8"@) == Some((1nat, 1nat)),
        scalar("i8"@) == Some((1nat, 1nat)),
        scalar("u16"@) == Some((2nat, 2nat)),
        scalar("i16"@) == Some((2nat, 2nat)),
        scalar("u32"@) == Some((4nat, 4nat)),
        scalar("i32"@) == Some((4nat, 4nat)),
        scalar("f32"@) == Some((4nat, 4nat)),
        scalar("u64"@) == Some((8nat, 8nat)),
        scalar("i64"@) == Some((8nat, 8nat)),
        scalar("f64"@) == Some((8nat, 8nat)),
{
    reveal_strlit("bool");
    reveal_strlit("u8");
    reveal_strlit("i8");
    reveal_strlit("u16");
    reveal_strlit("i16");
    reveal_strlit("u32");
    reveal_strlit("i32");
    reveal_strlit("f32");
    reveal_strlit("usize");
    reveal_strlit("isize");
    reveal_strlit("char");
    reveal_strlit("u64");
    reveal_strlit("i64");
    reveal_strlit("f64");
    assert("bool"@.len() == 4);
    assert("u8"@.len() == 2);
    assert("i8"@.len() == 2);
    assert("u16"@.len() == 3 && "u16"@[1] == '1');
    assert("i16"@.len() == 3 && "i16"@[1] == '1');
    assert("u32"@.len() == 3 && "u32"@[1] == '3');
    assert("i32"@.len() == 3 && "i32"@[1] == '3');
    assert("f32"@.len() == 3 && "f32"@[1] == '3');
    assert("usize"@.len() == 5);
    assert("isize"@.len() == 5);
    assert("char"@.len() == 4);
    assert("u64"@.len() == 3 && "u64"@[1] == '6');
    assert("i64"@.len() == 3 && "i64"@[1] == '6');
    assert("f64"@.len() == 3 && "f64"@[1] == '6');
}

/// The first multiple of `a` that is not below `x`.
pub fn align_up(x: u32, a: u32) -> (r: u32)
    requires
        a > 0,
        x + a <= u32::MAX,
    ensures
        r == aligned(x as nat, a as nat),
{
    let n: u32 = (x + a - 1) / a;
    proof {
        vstd::arithmetic::div_mod::lemma_fundamental_div_mod((x + a - 1) as int, a as int);
        vstd::arithmetic::mul::lemma_mul_is_commutative(n as int, a as int);
        assert(n * a <= x + a - 1);
    }
    n * a
}

/// Size and alignment of a scalar.
pub fn scalar_size_align(name: &str) -> (r: Option<(u32, u32)>)
    ensures
        match scalar(name@) {
            Some((size, align)) => r == Some((size as u32, align as u32)),
            None => r is None,
        },
{
    if text::same(name, "bool") || text::same(name, "u8") || text::same(name, "i8") {
        Some((1, 1))
    } else if text::same(name, "u16") || text::same(name, "i16") {
        Some((2, 2))
    } else if text::same(name, "u32") || text::same(name, "i32") || text::same(name, "f32")
        || text::same(name, "usize") || text::same(name, "isize") || text::same(name, "char") {
        Some((4, 4))
    } else if text::same(name, "u64") || text::same(name, "i64") || text::same(name, "f64") {
        Some((8, 8))
    } else if text::same(name, "u128") || text::same(name, "i128") {
        Some((16, 16))
    } else {
        None
    }
}

/// Is it a type of text?
pub fn string_name(name: &str) -> (r: bool)
    ensures
        r == is_string(name@),
{
    text::same(name, "String") || text::same(name, "str") || text::same(name, "SmolStr")
}

/// Is it a list?
pub fn list_name(name: &str) -> (r: bool)
    ensures
        r == is_list(name@),
{
    text::same(name, "Vec") || text::same(name, "ThinVec") || text::same(name, "SmallVec")
        || text::same(name, "TinyVec") || text::same(name, "ArrayVec")
}

/// Is it a pointer?
pub fn pointer_name(name: &str) -> (r: bool)
    ensures
        r == is_pointer(name@),
{
    text::same(name, "Box") || text::same(name, "Rc") || text::same(name, "Arc")
}

/// The fields of the struct called `name`.
pub fn find_struct<'a>(structs: &'a Vec<StructMeta>, name: &str) -> (r: Option<
    &'a Vec<(String, Ty)>,
>)
    ensures
        match order::fields_named(meta::struct_views(structs@), name@) {
            Some(want) => r matches Some(got) && meta::field_views(got@) == want,
            None => r is None,
        },
{
    let ghost views = meta::struct_views(structs@);
    let mut i: usize = structs.len();
    assert(views.take(i as int) =~= views);
    while i > 0
        invariant
            i <= structs@.len(),
            views == meta::struct_views(structs@),
            order::fields_named(views, name@) == order::fields_named(views.take(i as int), name@),
        decreases i,
    {
        assert(views.take(i as int).last() == structs@[i - 1]@);
        assert(views.take(i as int).drop_last() =~= views.take(i - 1));
        if text::same(structs[i - 1].name.as_str(), name) {
            return Some(&structs[i - 1].fields);
        }
        i = i - 1;
    }
    None
}

/// The layout of an optional value.
fn optional_layout(size: u32, align: u32) -> (r: Option<(u32, u32)>)
    requires
        is_alignment(align as nat),
    ensures
        match optional(size as nat, align as nat) {
            Some((s, a)) => r == Some((s as u32, a as u32)) && fits(s),
            None => r is None,
        },
{
    proof {
        lemma_aligned(1, align as nat);
    }
    let start: u32 = align_up(1, align);
    if size > u32::MAX - start {
        return None;
    }
    let end: u32 = start + size;
    if align > u32::MAX - end {
        return None;
    }
    proof {
        lemma_aligned(end as nat, align as nat);
    }
    Some((align_up(end, align), align))
}

/// The layout of `n` values side by side.
fn repeated_layout(size: u32, align: u32, n: u64) -> (r: Option<(u32, u32)>)
    ensures
        match repeated(size as nat, align as nat, n as nat) {
            Some((s, a)) => r == Some((s as u32, a as u32)) && fits(s),
            None => r is None,
        },
{
    if size == 0 {
        assert(n * size == 0) by (nonlinear_arith)
            requires
                size == 0,
        ;
        return Some((0, align));
    }
    if n > u32::MAX as u64 {
        assert(n * size > u32::MAX) by (nonlinear_arith)
            requires
                n > u32::MAX,
                size >= 1,
        ;
        return None;
    }
    assert(n * size <= 0xffff_ffff * 0xffff_ffff) by (nonlinear_arith)
        requires
            n <= 0xffff_ffff,
            size <= 0xffff_ffff,
    ;
    let total: u64 = n * size as u64;
    if total > u32::MAX as u64 {
        return None;
    }
    Some((total as u32, align))
}

/// Size and alignment of the archived form of `ty`, where structs may be
/// nested `depth` deep.
fn layout_within(ty: &Ty, structs: &Vec<StructMeta>, depth: usize) -> (r: Option<(u32, u32)>)
    ensures
        match layout(ty@, meta::struct_views(structs@), depth as nat) {
            Some((size, align)) => r == Some((size as u32, align as u32)) && fits(size) && fits(
                align,
            ),
            None => r is None,
        },
    decreases depth, ty@, 0int,
{
    let t = ty::unref(ty);
    let (name, args) = ty::path_parts(t);
    assert(ty::type_args(t@).len() == args@.len());
    if let Some(sa) = scalar_size_align(name) {
        return Some(sa);
    }
    if string_name(name) || list_name(name) {
        return Some((8, 4));
    }
    if pointer_name(name) {
        return Some((4, 4));
    }
    if text::same(name, "Option") {
        if args.len() == 0 {
            return None;
        }
        assert(ty::type_args(t@)[0] == args@[0]@);
        proof {
            ty::lemma_type_args_smaller(ty@, 0);
            law_sizes_are_aligned(args@[0]@, meta::struct_views(structs@), depth as nat);
        }
        return match layout_within(args[0], structs, depth) {
            Some((size, align)) => optional_layout(size, align),
            None => None,
        };
    }
    proof {
        ty::lemma_parts_smaller(ty@);
    }
    match t {
        Ty::Array(el, n) => {
            return match layout_within(el, structs, depth) {
                Some((size, align)) => repeated_layout(size, align, *n),
                None => None,
            };
        },
        Ty::Tuple(types) => {
            if types.len() > 0 {
                let refs = ty::borrowed(types);
                assert(ty::ty_views(refs@) =~= ty::tuple_types(ty@));
                return closed_layout(extent_within(&refs, structs, depth));
            }
        },
        _ => {},
    }
    match find_struct(structs, name) {
        None => None,
        Some(fields) => {
            if depth == 0 {
                return None;
            }
            struct_layout(fields, structs, depth - 1)
        },
    }
}

/// Where no layout is found for the first types, none is for all.
pub proof fn lemma_extent_error(
    types: Seq<TyView>,
    n: int,
    structs: Seq<StructView>,
    depth: nat,
)
    requires
        0 <= n <= types.len(),
        extent(types.take(n), structs, depth) is None,
    ensures
        extent(types, structs, depth) is None,
    decreases types.len(),
{
    if n == types.len() {
        assert(types.take(n) =~= types);
    } else {
        assert(types.drop_last().take(n) =~= types.take(n));
        lemma_extent_error(types.drop_last(), n, structs, depth);
    }
}

/// Where a value of this size and alignment ends that follows others, and the
/// greatest alignment among them.
fn place(end: u32, greatest: u32, size: u32, align: u32) -> (r: Option<(u32, u32)>)
    requires
        is_alignment(align as nat),
    ensures
        match placed((end as nat, greatest as nat), (size as nat, align as nat)) {
            Some((e, g)) => r == Some((e as u32, g as u32)) && fits(e) && fits(g),
            None => r is None,
        },
{
    proof {
        lemma_aligned(end as nat, align as nat);
    }
    if align > u32::MAX - end || size > u32::MAX - align_up(end, align) {
        return None;
    }
    Some(
        (
            align_up(end, align) + size,
            if greatest < align {
                align
            } else {
                greatest
            },
        ),
    )
}

/// Where the last of these values ends, and the greatest alignment among them.
fn extent_within(types: &Vec<&Ty>, structs: &Vec<StructMeta>, depth: usize) -> (r: Option<
    (u32, u32),
>)
    ensures
        match extent(ty::ty_views(types@), meta::struct_views(structs@), depth as nat) {
            Some((end, align)) => r == Some((end as u32, align as u32)) && fits(end)
                && is_alignment(align),
            None => r is None,
        },
    decreases depth, ty::ty_views(types@), 0int,
{
    let ghost views = ty::ty_views(types@);
    let ghost all = meta::struct_views(structs@);
    let mut end: u32 = 0;
    let mut greatest: u32 = 1;
    let mut i: usize = 0;
    assert(views.take(0) =~= Seq::empty());
    while i < types.len()
        invariant
            i <= types@.len(),
            views == ty::ty_views(types@),
            all == meta::struct_views(structs@),
            is_alignment(greatest as nat),
            extent(views.take(i as int), all, depth as nat) == Some((end as nat, greatest as nat)),
        decreases types@.len() - i,
    {
        assert(views.take(i + 1).drop_last() =~= views.take(i as int));
        assert(views.take(i + 1)[i as int] == views[i as int]);
        assert(decreases_to!(views => views[i as int]));
        proof {
            law_sizes_are_aligned(views[i as int], all, depth as nat);
        }
        let next = match layout_within(types[i], structs, depth) {
            Some((size, align)) => place(end, greatest, size, align),
            None => None,
        };
        match next {
            Some((e, g)) => {
                end = e;
                greatest = g;
            },
            None => {
                proof {
                    lemma_extent_error(views, i + 1, all, depth as nat);
                }
                return None;
            },
        }
        i = i + 1;
    }
    assert(views.take(i as int) =~= views);
    Some((end, greatest))
}

/// Size and alignment of values that end there.
fn closed_layout(extent: Option<(u32, u32)>) -> (r: Option<(u32, u32)>)
    requires
        extent matches Some((_, align)) ==> is_alignment(align as nat),
    ensures
        match closed_up(
            match extent {
                Some((end, align)) => Some((end as nat, align as nat)),
                None => None,
            },
        ) {
            Some((size, align)) => r == Some((size as u32, align as u32)) && fits(size) && fits(
                align,
            ),
            None => r is None,
        },
{
    match extent {
        None => None,
        Some((end, align)) => {
            if align > u32::MAX - end {
                return None;
            }
            proof {
                lemma_aligned(end as nat, align as nat);
            }
            Some((align_up(end, align), align))
        },
    }
}

/// The types of a list of fields.
pub fn types_of_fields(fields: &Vec<(String, Ty)>) -> (r: Vec<&Ty>)
    ensures
        ty::ty_views(r@) == field_types(meta::field_views(fields@)),
{
    let ghost want = field_types(meta::field_views(fields@));
    let mut types: Vec<&Ty> = Vec::new();
    let mut i: usize = 0;
    assert(ty::ty_views(types@) =~= want.take(0));
    while i < fields.len()
        invariant
            i <= fields@.len(),
            want == field_types(meta::field_views(fields@)),
            ty::ty_views(types@) == want.take(i as int),
        decreases fields@.len() - i,
    {
        let ghost before = ty::ty_views(types@);
        types.push(&fields[i].1);
        assert(ty::ty_views(types@) =~= before.push(fields@[i as int].1@));
        assert(ty::ty_views(types@) =~= want.take(i + 1));
        i = i + 1;
    }
    assert(want.take(i as int) =~= want);
    types
}

/// Size and alignment of a struct with these fields, in which structs may be
/// nested `depth` deep.
pub fn struct_layout(fields: &Vec<(String, Ty)>, structs: &Vec<StructMeta>, depth: usize) -> (r:
    Option<(u32, u32)>)
    ensures
        match closed_up(
            extent(
                field_types(meta::field_views(fields@)),
                meta::struct_views(structs@),
                depth as nat,
            ),
        ) {
            Some((size, align)) => r == Some((size as u32, align as u32)) && fits(size) && fits(
                align,
            ),
            None => r is None,
        },
    decreases depth, field_types(meta::field_views(fields@)), 1int,
{
    closed_layout(extent_within(&types_of_fields(fields), structs, depth))
}

/// Where each of these values starts, one behind the other.
pub fn offsets(types: &Vec<&Ty>, structs: &Vec<StructMeta>) -> (r: Option<Vec<u32>>)
    ensures
        match r {
            Some(starts) => {
                &&& extent(
                    ty::ty_views(types@),
                    meta::struct_views(structs@),
                    structs@.len(),
                ) is Some
                &&& starts@.len() == types@.len()
                &&& forall|i: int|
                    0 <= i < types@.len() ==> offset(
                        ty::ty_views(types@),
                        i,
                        meta::struct_views(structs@),
                    ) == Some(#[trigger] starts@[i] as nat)
            },
            None => extent(
                ty::ty_views(types@),
                meta::struct_views(structs@),
                structs@.len(),
            ) is None,
        },
{
    let ghost views = ty::ty_views(types@);
    let ghost all = meta::struct_views(structs@);
    let mut starts: Vec<u32> = Vec::new();
    let mut end: u32 = 0;
    let mut greatest: u32 = 1;
    let mut i: usize = 0;
    assert(views.take(0) =~= Seq::empty());
    while i < types.len()
        invariant
            i <= types@.len(),
            views == ty::ty_views(types@),
            all == meta::struct_views(structs@),
            starts@.len() == i,
            forall|j: int|
                0 <= j < i ==> offset(views, j, all) == Some(#[trigger] starts@[j] as nat),
            extent(views.take(i as int), all, all.len()) == Some((end as nat, greatest as nat)),
        decreases types@.len() - i,
    {
        assert(views.take(i + 1).drop_last() =~= views.take(i as int));
        assert(views.take(i + 1)[i as int] == views[i as int]);
        let next = match archived(types[i], structs) {
            Some((size, align)) => match place(end, greatest, size, align) {
                Some((e, g)) => {
                    proof {
                        lemma_aligned(end as nat, align as nat);
                    }
                    Some((align_up(end, align), e, g))
                },
                None => None,
            },
            None => None,
        };
        match next {
            Some((start, e, g)) => {
                starts.push(start);
                end = e;
                greatest = g;
            },
            None => {
                proof {
                    lemma_extent_error(views, i + 1, all, all.len());
                }
                return None;
            },
        }
        i = i + 1;
    }
    assert(views.take(i as int) =~= views);
    Some(starts)
}

/// Size and alignment of the archived form of `ty`; nothing, if no archive can
/// hold it.
pub fn archived(ty: &Ty, structs: &Vec<StructMeta>) -> (r: Option<(u32, u32)>)
    ensures
        match archived_layout(ty@, meta::struct_views(structs@)) {
            Some((size, align)) => r == Some((size as u32, align as u32)) && fits(size) && fits(
                align,
            ) && is_alignment(align),
            None => r is None,
        },
{
    proof {
        law_sizes_are_aligned(ty@, meta::struct_views(structs@), structs@.len());
    }
    layout_within(ty, structs, structs.len())
}

} // verus!
