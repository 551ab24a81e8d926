//! Reading: what the expressions that read values mean, what lies in an archive,
//! and that the one gives the other.
//!
//! An expression is evaluated over the memory of a binary, with a variable that
//! holds an address. What an archive holds depends on nothing but the type, the
//! memory and the address.
use crate::expr;
use crate::layout;
use crate::meta::StructView;
use crate::module;
use crate::numbers;
use crate::numbers::Family;
use crate::order;
use crate::text;
use crate::ty;
use crate::ty::TyView;
use vstd::prelude::*;

verus! {

/// The memory of a binary: a byte at every address.
pub type Memory = spec_fn(int) -> u8;

/// `n` bytes from `at` on.
pub open spec fn bytes(memory: Memory, at: int, n: nat) -> Seq<u8> {
    Seq::new(n, |i: int| memory(at + i))
}

/// The number in the four bytes at `at`, least significant first.
pub open spec fn word(memory: Memory, at: int) -> nat {
    (memory(at) + 0x100 * memory(at + 1) + 0x1_0000 * memory(at + 2) + 0x100_0000 * memory(
        at + 3,
    )) as nat
}

/// Where the pointer at `at` leads: pointers are relative to where they are, and
/// may lead back.
pub open spec fn target(memory: Memory, at: int) -> int {
    if word(memory, at) < 0x8000_0000 {
        at + word(memory, at)
    } else {
        at + word(memory, at) - 0x1_0000_0000
    }
}

/// A value that is read.
pub enum Value {
    Truth(bool),
    Character(Seq<u8>),
    Number(Family, Seq<u8>),
    /// The text whose archive is at the address.
    Text(int),
    /// The struct of that name whose archive is at the address.
    Record(Seq<char>, int),
    Nothing,
    List(Seq<Value>),
}

/// An address that an expression computes.
pub enum Place {
    /// What the variable holds.
    Given,
    /// So many bytes behind a place.
    Behind(Box<Place>, nat),
    /// Where the pointer at a place leads.
    Target(Box<Place>),
}

impl Place {
    /// The expression for the address.
    pub open spec fn shown(self, var: Seq<char>) -> Seq<char>
        decreases self,
    {
        match self {
            Place::Given => var,
            Place::Behind(p, n) => p.shown(var) + " + "@ + text::decimal(n),
            Place::Target(p) => "("@ + p.shown(var) + ") + dv.getInt32("@ + p.shown(var)
                + ", true)"@,
        }
    }

    /// The address, where the variable holds `at`.
    pub open spec fn address(self, memory: Memory, at: int) -> int
        decreases self,
    {
        match self {
            Place::Given => at,
            Place::Behind(p, n) => p.address(memory, at) + n,
            Place::Target(p) => target(memory, p.address(memory, at)),
        }
    }
}

/// An expression that reads a value.
pub enum Read {
    Truth(Place),
    Character(Place),
    /// A number of so many bytes.
    Number(Family, nat, Place),
    Text(Place),
    /// A list of numbers of so many bytes, side by side.
    View(Family, nat, Place),
    /// A list whose elements are so many bytes apart.
    List(nat, Box<Read>, Place),
    /// Nothing where the byte at the place is zero.
    Maybe(Box<Read>, Place),
    /// So many elements that are so many bytes apart.
    Array(nat, nat, Box<Read>, Place),
    Tuple(Seq<Read>),
    Record(Seq<char>, Place),
}

impl Read {
    /// The text of the expression.
    pub open spec fn shown(self, var: Seq<char>) -> Seq<char>
        decreases self,
    {
        match self {
            Read::Truth(p) => "(u8["@ + p.shown(var) + "] !== 0)"@,
            Read::Character(p) => "String.fromCodePoint("@ + numbers::getter(
                Family::Unsigned,
                4,
                p.shown(var),
            ) + ")"@,
            Read::Number(family, size, p) => numbers::getter(family, size, p.shown(var)),
            Read::Text(p) => "rdStr(dv, u8, "@ + p.shown(var) + ")"@,
            Read::View(family, size, p) => "rdVec(dv, "@ + p.shown(var) + ", "@
                + numbers::array_name(family, size) + ")"@,
            Read::List(stride, inner, p) => "rdVecOf(dv, u8, "@ + p.shown(var) + ", "@
                + text::decimal(stride) + ", (a) => "@ + inner.shown("a"@) + ")"@,
            Read::Maybe(inner, p) => "(u8["@ + p.shown(var) + "] === 0 ? null : "@ + inner.shown(
                var,
            ) + ")"@,
            Read::Array(n, stride, inner, p) => "Array.from({ length: "@ + text::decimal(n)
                + " }, (_, i) => ((a) => "@ + inner.shown("a"@) + ")("@ + p.shown(var)
                + " + i * "@ + text::decimal(stride) + "))"@,
            Read::Tuple(list) => "["@ + text::join(shown_all(list, var), ", "@) + "]"@,
            Read::Record(name, p) => "decode_"@ + name + "(dv, u8, "@ + p.shown(var) + ")"@,
        }
    }

    /// What it reads, where the variable holds `at`. A list is a pointer to its
    /// first element and the number of its elements.
    pub open spec fn value(self, memory: Memory, at: int) -> Value
        decreases self,
    {
        match self {
            Read::Truth(p) => Value::Truth(memory(p.address(memory, at)) != 0),
            Read::Character(p) => Value::Character(bytes(memory, p.address(memory, at), 4)),
            Read::Number(family, size, p) => Value::Number(
                family,
                bytes(memory, p.address(memory, at), size),
            ),
            Read::Text(p) => Value::Text(p.address(memory, at)),
            Read::View(family, size, p) => {
                let a = p.address(memory, at);
                Value::List(
                    Seq::new(
                        word(memory, a + 4),
                        |k: int|
                            Value::Number(
                                family,
                                bytes(memory, target(memory, a) + k * size, size),
                            ),
                    ),
                )
            },
            Read::List(stride, inner, p) => {
                let a = p.address(memory, at);
                Value::List(
                    Seq::new(
                        word(memory, a + 4),
                        |k: int| inner.value(memory, target(memory, a) + k * stride),
                    ),
                )
            },
            Read::Maybe(inner, p) => if memory(p.address(memory, at)) == 0 {
                Value::Nothing
            } else {
                inner.value(memory, at)
            },
            Read::Array(n, stride, inner, p) => Value::List(
                Seq::new(
                    n,
                    |k: int| inner.value(memory, p.address(memory, at) + k * stride),
                ),
            ),
            Read::Tuple(list) => Value::List(
                Seq::new(
                    list.len(),
                    |i: int|
                        if 0 <= i < list.len() {
                            list[i].value(memory, at)
                        } else {
                            arbitrary()
                        },
                ),
            ),
            Read::Record(name, p) => Value::Record(name, p.address(memory, at)),
        }
    }
}

/// The texts of a list of expressions.
pub open spec fn shown_all(list: Seq<Read>, var: Seq<char>) -> Seq<Seq<char>>
    decreases list,
{
    if list.len() == 0 {
        Seq::empty()
    } else {
        shown_all(list.drop_last(), var).push(list[list.len() - 1].shown(var))
    }
}

/// The names of the types of text.
pub open spec fn names_text(name: Seq<char>) -> bool {
    name == "String"@ || name == "str"@ || name == "SmolStr"@
}

/// The names of the types of lists.
pub open spec fn names_list(name: Seq<char>) -> bool {
    name == "Vec"@ || name == "ThinVec"@ || name == "SmallVec"@ || name == "TinyVec"@ || name
        == "ArrayVec"@
}

/// The names of the types of pointers.
pub open spec fn names_pointer(name: Seq<char>) -> bool {
    name == "Box"@ || name == "Rc"@ || name == "Arc"@
}

/// `name` is that of a number that JavaScript can hold.
pub open spec fn names_number(name: Seq<char>) -> bool {
    exists|family: Family, size: nat| size <= 8 && #[trigger] numbers::is_number(
        name,
        family,
        size,
    )
}

/// The family and the size of such a number.
pub open spec fn number_of(name: Seq<char>) -> (Family, nat) {
    choose|r: (Family, nat)| r.1 <= 8 && #[trigger] numbers::is_number(name, r.0, r.1)
}

/// How many bytes a value of the type takes in an archive.
pub open spec fn size_of(ty: TyView, structs: Seq<StructView>) -> nat {
    layout::archived_layout(ty, structs)->Some_0.0
}

/// What the address of a value of the type is a multiple of.
pub open spec fn align_of(ty: TyView, structs: Seq<StructView>) -> nat {
    layout::archived_layout(ty, structs)->Some_0.1
}

/// What the archive of a value of type `ty` at `at` holds. An optional value is a
/// byte and, where that is not zero, the value behind it, at the next multiple
/// of its alignment. A list is a pointer to its first element and the number of
/// its elements; elements lie side by side.
pub open spec fn held(ty: TyView, structs: Seq<StructView>, memory: Memory, at: int) -> Value
    decreases ty,
{
    let t = ty::bare(ty);
    let name = ty::head(t);
    let args = ty::type_args(t);
    if name == "bool"@ {
        Value::Truth(memory(at) != 0)
    } else if name == "char"@ {
        Value::Character(bytes(memory, at, 4))
    } else if names_number(name) {
        Value::Number(number_of(name).0, bytes(memory, at, number_of(name).1))
    } else if names_text(name) {
        Value::Text(at)
    } else if (names_list(name) || name == "Option"@ || names_pointer(name)) && args.len() > 0 {
        proof {
            ty::lemma_type_args_smaller(ty, 0);
        }
        let el = args[0];
        if names_list(name) {
            Value::List(
                Seq::new(
                    word(memory, at + 4),
                    |k: int|
                        held(el, structs, memory, target(memory, at) + k * size_of(el, structs)),
                ),
            )
        } else if name == "Option"@ {
            if memory(at) == 0 {
                Value::Nothing
            } else {
                held(el, structs, memory, at + align_of(el, structs))
            }
        } else {
            held(el, structs, memory, target(memory, at))
        }
    } else if let TyView::Array(el, n) = t {
        proof {
            ty::lemma_parts_smaller(ty);
        }
        Value::List(
            Seq::new(n, |k: int| held(*el, structs, memory, at + k * size_of(*el, structs))),
        )
    } else if ty::tuple_types(ty).len() > 0 {
        proof {
            ty::lemma_parts_smaller(ty);
        }
        let types = ty::tuple_types(ty);
        Value::List(
            Seq::new(
                types.len(),
                |i: int|
                    if 0 <= i < types.len() {
                        held(
                            types[i],
                            structs,
                            memory,
                            at + layout::offset(types, i, structs)->Some_0,
                        )
                    } else {
                        arbitrary()
                    },
            ),
        )
    } else {
        Value::Record(name, at)
    }
}

/// JavaScript can read a value of the type: it is made of truth values,
/// characters, numbers, text and structs, and where something lies depends on the
/// size of something else, that has a size.
pub open spec fn readable(ty: TyView, structs: Seq<StructView>) -> bool
    decreases ty,
{
    let t = ty::bare(ty);
    let name = ty::head(t);
    let args = ty::type_args(t);
    if name == "bool"@ || name == "char"@ || names_number(name) || names_text(name) {
        true
    } else if names_list(name) || name == "Option"@ || names_pointer(name) {
        &&& args.len() > 0
        &&& {
            proof {
                ty::lemma_type_args_smaller(ty, 0);
            }
            readable(args[0], structs)
        }
        &&& names_pointer(name) || layout::archived_layout(args[0], structs) is Some
    } else if let TyView::Array(el, n) = t {
        proof {
            ty::lemma_parts_smaller(ty);
        }
        readable(*el, structs) && layout::archived_layout(*el, structs) is Some
    } else if ty::tuple_types(ty).len() > 0 {
        proof {
            ty::lemma_parts_smaller(ty);
        }
        let types = ty::tuple_types(ty);
        &&& layout::extent(types, structs, structs.len()) is Some
        &&& forall|i: int| 0 <= i < types.len() ==> readable(#[trigger] types[i], structs)
    } else {
        order::fields_named(structs, name) is Some
    }
}

pub proof fn lemma_number_of(name: Seq<char>)
    requires
        names_number(name),
    ensures
        numbers::is_number(name, number_of(name).0, number_of(name).1),
        number_of(name).1 <= 8,
{
    let (family, size) = choose|family: Family, size: nat|
        size <= 8 && #[trigger] numbers::is_number(name, family, size);
    let r = (family, size);
    assert(r.1 <= 8 && numbers::is_number(name, r.0, r.1));
}

/// Two ways to take a name for that of a number are one.
proof fn lemma_one_number(name: Seq<char>, a: Family, n: nat, b: Family, m: nat)
    requires
        numbers::is_number(name, a, n),
        numbers::is_number(name, b, m),
    ensures
        a == b,
        n == m,
{
    numbers::lemma_names();
    numbers::lemma_number_names();
}

proof fn lemma_scalars(name: Seq<char>, place: Place, var: Seq<char>)
    ensures
        names_number(name) ==> expr::scalar_reader(name, place.shown(var)) == Some(
            Read::Number(number_of(name).0, number_of(name).1, place).shown(var),
        ),
        name == "bool"@ ==> expr::scalar_reader(name, place.shown(var)) == Some(
            Read::Truth(place).shown(var),
        ),
        name == "char"@ ==> expr::scalar_reader(name, place.shown(var)) == Some(
            Read::Character(place).shown(var),
        ),
        name != "bool"@ && name != "char"@ && !names_number(name) ==> expr::scalar_reader(
            name,
            place.shown(var),
        ) is None,
        names_number(name) ==> name != "bool"@ && name != "char"@,
{
    let addr = place.shown(var);
    numbers::lemma_names();
    if names_number(name) {
        lemma_number_of(name);
        let (family, size) = number_of(name);
        numbers::law_numbers_are_as_wide_as_their_names(name, family, size);
        numbers::law_numbers_are_read_at_their_width(name, family, size, addr);
        numbers::lemma_number_names();
    } else if name == "char"@ {
        numbers::lemma_character_getter(addr);
    } else if name != "bool"@ && expr::scalar_reader(name, addr) is Some {
        assert(layout::scalar(name) is Some);
        let (family, size) = numbers::law_scalars_are_numbers(name);
        numbers::law_numbers_are_as_wide_as_their_names(name, family, size);
        numbers::law_numbers_are_read_at_their_width(name, family, size, addr);
        assert(size <= 8 && numbers::is_number(name, family, size));
    }
}

/// The names of types of different kinds are different.
pub proof fn lemma_kinds(name: Seq<char>)
    ensures
        names_text(name) == layout::is_string(name),
        names_list(name) == layout::is_list(name),
        names_pointer(name) == layout::is_pointer(name),
        names_text(name) ==> !names_list(name) && !names_pointer(name) && name != "Option"@,
        names_list(name) ==> !names_pointer(name) && name != "Option"@,
        names_pointer(name) ==> name != "Option"@,
{
    numbers::lemma_names();
}

/// A typed array views what a list of such numbers holds.
pub proof fn lemma_view(el: TyView, structs: Seq<StructView>) -> (r: (Family, nat))
    requires
        expr::typed_array(el) is Some,
    ensures
        expr::typed_array(el) == Some(numbers::array_name(r.0, r.1)),
        layout::archived_layout(el, structs) == Some((r.1, r.1)),
        readable(el, structs),
        forall|memory: Memory, at: int| #[trigger]
            held(el, structs, memory, at) == Value::Number(r.0, bytes(memory, at, r.1)),
{
    let name = ty::head(ty::bare(el));
    let (family, size) = numbers::law_only_numbers_are_viewed(el);
    numbers::law_numbers_are_viewed_at_their_width(el, structs, family, size);
    assert(size <= 8 && numbers::is_number(name, family, size));
    lemma_number_of(name);
    lemma_one_number(name, family, size, number_of(name).0, number_of(name).1);
    lemma_scalars(name, Place::Given, "a"@);
    (family, size)
}

/// What is read is what is there: the expression for a type that can be read
/// gives what the archive at the place holds, whatever is in the memory and
/// whatever address the variable holds.
#[verifier::rlimit(60)]
pub proof fn law_what_is_read_is_what_is_held(
    ty: TyView,
    structs: Seq<StructView>,
    place: Place,
    var: Seq<char>,
) -> (r: Read)
    requires
        readable(ty, structs),
    ensures
        expr::reader(ty, structs, place.shown(var)) == Some(r.shown(var)),
        forall|memory: Memory, at: int| #[trigger]
            r.value(memory, at) == held(ty, structs, memory, place.address(memory, at)),
    decreases ty,
{
    let t = ty::bare(ty);
    let name = ty::head(t);
    let args = ty::type_args(t);
    let addr = place.shown(var);
    lemma_scalars(name, place, var);
    lemma_kinds(name);
    if name == "bool"@ {
        Read::Truth(place)
    } else if name == "char"@ {
        Read::Character(place)
    } else if names_number(name) {
        Read::Number(number_of(name).0, number_of(name).1, place)
    } else if names_text(name) {
        Read::Text(place)
    } else if names_list(name) {
        let el = args[0];
        ty::lemma_type_args_smaller(ty, 0);
        if expr::typed_array(el) is Some {
            let (family, size) = lemma_view(el, structs);
            let r = Read::View(family, size, place);
            assert forall|memory: Memory, at: int| #[trigger]
                r.value(memory, at) == held(ty, structs, memory, place.address(memory, at)) by {
                let a = place.address(memory, at);
                let (v, h) = (r.value(memory, at), held(ty, structs, memory, a));
                assert(v is List && h is List);
                assert forall|k: int| 0 <= k < v->List_0.len() implies v->List_0[k]
                    == h->List_0[k] by {
                    assert(h->List_0[k] == held(
                        el,
                        structs,
                        memory,
                        target(memory, a) + k * size_of(el, structs),
                    ));
                }
                assert(v->List_0 =~= h->List_0);
            }
            r
        } else {
            let stride = size_of(el, structs);
            let inner = law_what_is_read_is_what_is_held(el, structs, Place::Given, "a"@);
            let r = Read::List(stride, Box::new(inner), place);
            assert forall|memory: Memory, at: int| #[trigger]
                r.value(memory, at) == held(ty, structs, memory, place.address(memory, at)) by {
                let a = place.address(memory, at);
                let (v, h) = (r.value(memory, at), held(ty, structs, memory, a));
                assert(v is List && h is List);
                assert forall|k: int| 0 <= k < v->List_0.len() implies v->List_0[k]
                    == h->List_0[k] by {
                    let b = target(memory, a) + k * stride;
                    assert(h->List_0[k] == held(el, structs, memory, b));
                    assert(v->List_0[k] == inner.value(memory, b));
                    assert(Place::Given.address(memory, b) == b);
                }
                assert(v->List_0 =~= h->List_0);
            }
            r
        }
    } else if name == "Option"@ {
        let el = args[0];
        ty::lemma_type_args_smaller(ty, 0);
        layout::law_sizes_are_aligned(el, structs, structs.len());
        let align = align_of(el, structs);
        layout::lemma_first_multiple(align);
        let inner = law_what_is_read_is_what_is_held(
            el,
            structs,
            Place::Behind(Box::new(place), align),
            var,
        );
        let r = Read::Maybe(Box::new(inner), place);
        assert forall|memory: Memory, at: int| #[trigger]
            r.value(memory, at) == held(ty, structs, memory, place.address(memory, at)) by {
            let a = place.address(memory, at);
            assert(inner.value(memory, at) == held(el, structs, memory, a + align));
        }
        r
    } else if names_pointer(name) {
        ty::lemma_type_args_smaller(ty, 0);
        law_what_is_read_is_what_is_held(args[0], structs, Place::Target(Box::new(place)), var)
    } else if let TyView::Array(el, n) = t {
        ty::lemma_parts_smaller(ty);
        let stride = size_of(*el, structs);
        let inner = law_what_is_read_is_what_is_held(*el, structs, Place::Given, "a"@);
        let r = Read::Array(n, stride, Box::new(inner), place);
        assert forall|memory: Memory, at: int| #[trigger]
            r.value(memory, at) == held(ty, structs, memory, place.address(memory, at)) by {
            let a = place.address(memory, at);
            let (v, h) = (r.value(memory, at), held(ty, structs, memory, a));
            assert(v is List && h is List);
            assert forall|k: int| 0 <= k < v->List_0.len() implies v->List_0[k]
                == h->List_0[k] by {
                let b = a + k * stride;
                assert(h->List_0[k] == held(*el, structs, memory, b));
                assert(v->List_0[k] == inner.value(memory, b));
                assert(Place::Given.address(memory, b) == b);
            }
            assert(v->List_0 =~= h->List_0);
        }
        r
    } else if ty::tuple_types(ty).len() > 0 {
        let types = ty::tuple_types(ty);
        ty::lemma_parts_smaller(ty);
        let list = lemma_tuple(types, structs, place, var);
        let r = Read::Tuple(list);
        assert forall|memory: Memory, at: int| #[trigger]
            r.value(memory, at) == held(ty, structs, memory, place.address(memory, at)) by {
            let a = place.address(memory, at);
            let (v, h) = (r.value(memory, at), held(ty, structs, memory, a));
            assert(v is List && h is List);
            assert forall|k: int| 0 <= k < v->List_0.len() implies v->List_0[k]
                == h->List_0[k] by {
                assert(v->List_0[k] == list[k].value(memory, at));
            }
            assert(v->List_0 =~= h->List_0);
        }
        r
    } else {
        Read::Record(name, place)
    }
}

/// The expressions for the parts of a tuple.
#[verifier::rlimit(40)]
proof fn lemma_tuple(
    types: Seq<TyView>,
    structs: Seq<StructView>,
    place: Place,
    var: Seq<char>,
) -> (list: Seq<Read>)
    requires
        layout::extent(types, structs, structs.len()) is Some,
        forall|i: int| 0 <= i < types.len() ==> readable(#[trigger] types[i], structs),
    ensures
        list.len() == types.len(),
        expr::readers(types, structs, place.shown(var)) == Some(shown_all(list, var)),
        forall|i: int, memory: Memory, at: int|
            0 <= i < types.len() ==> (#[trigger] list[i].value(memory, at)) == held(
                types[i],
                structs,
                memory,
                place.address(memory, at) + layout::offset(types, i, structs)->Some_0,
            ),
    decreases types,
{
    if types.len() == 0 {
        assert(shown_all(Seq::<Read>::empty(), var) =~= Seq::empty());
        Seq::empty()
    } else {
        let front = types.drop_last();
        let n = types.len() - 1;
        let last = types[n];
        assert forall|i: int| 0 <= i < front.len() implies
            readable(#[trigger] front[i], structs) by {
            assert(front[i] == types[i]);
        }
        let before = lemma_tuple(front, structs, place, var);
        assert(types.take(n) =~= front);
        let off = layout::offset(types, n, structs)->Some_0;
        assert(layout::offset(types, n, structs) == Some(off));
        assert(decreases_to!(types => types[types.len() - 1]));
        let read = law_what_is_read_is_what_is_held(
            last,
            structs,
            Place::Behind(Box::new(place), off),
            var,
        );
        let list = before.push(read);
        assert(list.drop_last() =~= before);
        assert forall|i: int, memory: Memory, at: int| 0 <= i < types.len() implies (
        #[trigger] list[i].value(memory, at)) == held(
            types[i],
            structs,
            memory,
            place.address(memory, at) + layout::offset(types, i, structs)->Some_0,
        ) by {
            if i < n {
                assert(types.take(i) =~= front.take(i));
                assert(types[i] == front[i]);
                assert(list[i] == before[i]);
                assert(before[i].value(memory, at) == held(
                    front[i],
                    structs,
                    memory,
                    place.address(memory, at) + layout::offset(front, i, structs)->Some_0,
                ));
            } else {
                assert(list[i] == read);
            }
        }
        list
    }
}

/// There is no expression for a type that cannot be read.
#[verifier::rlimit(40)]
pub proof fn law_what_cannot_be_read_has_no_reader(
    ty: TyView,
    structs: Seq<StructView>,
    place: Place,
    var: Seq<char>,
)
    requires
        !readable(ty, structs),
    ensures
        expr::reader(ty, structs, place.shown(var)) is None,
    decreases ty,
{
    let t = ty::bare(ty);
    let name = ty::head(t);
    let args = ty::type_args(t);
    lemma_scalars(name, place, var);
    lemma_kinds(name);
    if names_list(name) || name == "Option"@ || names_pointer(name) {
        if args.len() > 0 {
            let el = args[0];
            ty::lemma_type_args_smaller(ty, 0);
            if names_list(name) {
                if expr::typed_array(el) is Some {
                    let r = lemma_view(el, structs);
                } else if !readable(el, structs) {
                    law_what_cannot_be_read_has_no_reader(el, structs, Place::Given, "a"@);
                }
            } else if names_pointer(name) {
                law_what_cannot_be_read_has_no_reader(
                    el,
                    structs,
                    Place::Target(Box::new(place)),
                    var,
                );
            } else if !readable(el, structs) {
                if let Some((_, align)) = layout::archived_layout(el, structs) {
                    law_what_cannot_be_read_has_no_reader(
                        el,
                        structs,
                        Place::Behind(Box::new(place), layout::aligned(1, align)),
                        var,
                    );
                }
            }
        }
    } else if let TyView::Array(el, n) = t {
        ty::lemma_parts_smaller(ty);
        if !readable(*el, structs) {
            law_what_cannot_be_read_has_no_reader(*el, structs, Place::Given, "a"@);
        }
    } else if ty::tuple_types(ty).len() > 0 {
        let types = ty::tuple_types(ty);
        ty::lemma_parts_smaller(ty);
        if layout::extent(types, structs, structs.len()) is Some {
            let i = choose|i: int| 0 <= i < types.len() && !readable(#[trigger] types[i], structs);
            lemma_no_tuple(types, structs, place, var, i);
        }
    }
}

proof fn lemma_no_tuple(
    types: Seq<TyView>,
    structs: Seq<StructView>,
    place: Place,
    var: Seq<char>,
    i: int,
)
    requires
        0 <= i < types.len(),
        !readable(types[i], structs),
    ensures
        expr::readers(types, structs, place.shown(var)) is None,
    decreases types,
{
    let n = types.len() - 1;
    if i < n {
        lemma_no_tuple(types.drop_last(), structs, place, var, i);
    } else if let Some(off) = layout::offset(types, n, structs) {
        assert(decreases_to!(types => types[types.len() - 1]));
        law_what_cannot_be_read_has_no_reader(
            types[n],
            structs,
            Place::Behind(Box::new(place), off),
            var,
        );
    }
}

/// A struct is read field by field: each field, in their order and under its
/// name, is read at its place in the struct, and what is read there is what the
/// archive of the field holds.
#[verifier::rlimit(40)]
pub proof fn law_struct_is_read_field_by_field(s: StructView, structs: Seq<StructView>) -> (r: (
    Seq<Read>,
    Seq<Seq<char>>,
))
    requires
        layout::extent(layout::field_types(s.fields), structs, structs.len()) is Some,
        forall|i: int| 0 <= i < s.fields.len() ==> readable((#[trigger] s.fields[i]).1, structs),
    ensures
        r.0.len() == s.fields.len(),
        r.1.len() == s.fields.len(),
        forall|i: int, memory: Memory, at: int|
            0 <= i < s.fields.len() ==> (#[trigger] r.0[i].value(memory, at)) == held(
                s.fields[i].1,
                structs,
                memory,
                at + layout::offset(layout::field_types(s.fields), i, structs)->Some_0,
            ),
        forall|i: int|
            0 <= i < s.fields.len() ==> (#[trigger] r.1[i]) == "    "@ + s.fields[i].0 + ": "@
                + r.0[i].shown("p"@) + ",\n"@,
        module::struct_reader(s, structs) == Some(
            "function decode_"@ + s.name + "(dv, u8, p) {\n  return {\n"@ + text::concat(r.1)
                + "  };\n}\n\n"@,
        ),
{
    let types = layout::field_types(s.fields);
    assert forall|i: int| 0 <= i < types.len() implies readable(#[trigger] types[i], structs) by {
        assert(types[i] == s.fields[i].1);
    }
    let list = lemma_tuple(types, structs, Place::Given, "p"@);
    let lines = Seq::new(
        s.fields.len(),
        |i: int| "    "@ + s.fields[i].0 + ": "@ + list[i].shown("p"@) + ",\n"@,
    );
    let pieces = Seq::new(s.fields.len(), |i: int| module::field_reader(s.fields, i, structs));
    assert forall|i: int| 0 <= i < pieces.len() implies pieces[i] == Some(#[trigger] lines[i]) by {
        lemma_reader_at(types, structs, "p"@, i);
        lemma_field_place(layout::offset(types, i, structs)->Some_0);
        lemma_shown_all(list, "p"@);
        assert(shown_all(list, "p"@)[i] == list[i].shown("p"@));
        assert(types[i] == s.fields[i].1);
    }
    text::lemma_gathered(pieces, lines);
    assert forall|i: int, memory: Memory, at: int| 0 <= i < s.fields.len() implies (
    #[trigger] list[i].value(memory, at)) == held(
        s.fields[i].1,
        structs,
        memory,
        at + layout::offset(types, i, structs)->Some_0,
    ) by {
        assert(types[i] == s.fields[i].1);
        assert(Place::Given.address(memory, at) == at);
    }
    (list, lines)
}

proof fn lemma_shown_all(list: Seq<Read>, var: Seq<char>)
    ensures
        shown_all(list, var).len() == list.len(),
        forall|i: int|
            0 <= i < list.len() ==> #[trigger] shown_all(list, var)[i] == list[i].shown(var),
    decreases list.len(),
{
    if list.len() > 0 {
        lemma_shown_all(list.drop_last(), var);
    }
}

proof fn lemma_reader_at(types: Seq<TyView>, structs: Seq<StructView>, addr: Seq<char>, i: int)
    requires
        0 <= i < types.len(),
        expr::readers(types, structs, addr) is Some,
    ensures
        expr::readers(types, structs, addr)->0.len() == types.len(),
        layout::offset(types, i, structs) is Some,
        expr::reader(
            types[i],
            structs,
            addr + " + "@ + text::decimal(layout::offset(types, i, structs)->Some_0),
        ) == Some(expr::readers(types, structs, addr)->0[i]),
    decreases types.len(),
{
    let n = types.len() - 1;
    if n > 0 {
        let front = types.drop_last();
        let k = if i < n {
            i
        } else {
            0
        };
        lemma_reader_at(front, structs, addr, k);
        assert(front.take(k) =~= types.take(k));
    } else {
        assert(expr::readers(types.drop_last(), structs, addr) == Some(Seq::<Seq<char>>::empty()));
    }
}

/// A struct whose fields have no place, or of which one cannot be read, has no
/// reader.
pub proof fn law_struct_that_cannot_be_read_has_no_reader(s: StructView, structs: Seq<StructView>)
    requires
        layout::extent(layout::field_types(s.fields), structs, structs.len()) is None || exists|
            i: int,
        |
            0 <= i < s.fields.len() && !readable((#[trigger] s.fields[i]).1, structs),
    ensures
        module::struct_reader(s, structs) is None,
{
    let types = layout::field_types(s.fields);
    if layout::extent(types, structs, structs.len()) is Some {
        let i = choose|i: int|
            0 <= i < s.fields.len() && !readable((#[trigger] s.fields[i]).1, structs);
        let pieces = Seq::new(s.fields.len(), |i: int| module::field_reader(s.fields, i, structs));
        if let Some(off) = layout::offset(types, i, structs) {
            law_what_cannot_be_read_has_no_reader(
                s.fields[i].1,
                structs,
                Place::Behind(Box::new(Place::Given), off),
                "p"@,
            );
            lemma_field_place(off);
        }
        assert(pieces[i] is None);
        text::lemma_missing(pieces, i);
    }
}

/// How the place of a field is written.
proof fn lemma_field_place(off: nat)
    ensures
        Place::Behind(Box::new(Place::Given), off).shown("p"@) == "p + "@ + text::decimal(off),
{
    reveal_strlit("p");
    reveal_strlit(" + ");
    reveal_strlit("p + ");
    assert("p"@ + " + "@ =~= "p + "@);
    assert(Place::Given.shown("p"@) == "p"@);
}

/// The elements of a list that no typed array views, and those of an array, are read
/// as far apart as one takes in the archive, whatever the type of the elements: the
/// number that the expression states is the archived size. Each is read by an
/// expression that gives what the archive of an element holds.
pub proof fn law_elements_are_as_far_apart_as_they_are_large(
    ty: TyView,
    structs: Seq<StructView>,
    addr: Seq<char>,
) -> (r: (Seq<char>, Read))
    requires
        readable(ty, structs),
        names_list(ty::head(ty::bare(ty))) || ty::bare(ty) is Array,
        names_list(ty::head(ty::bare(ty))) ==> expr::typed_array(
            ty::type_args(ty::bare(ty))[0],
        ) is None,
    ensures
        ({
            let t = ty::bare(ty);
            let el = if names_list(ty::head(t)) {
                ty::type_args(t)[0]
            } else {
                *t->Array_0
            };
            let (digits, inner) = r;
            &&& layout::archived_layout(el, structs) matches Some((size, _))
                && text::spelled_number(digits) == size
            &&& forall|memory: Memory, at: int| #[trigger]
                inner.value(memory, at) == held(el, structs, memory, at)
            &&& expr::reader(ty, structs, addr) == Some(
                if names_list(ty::head(t)) {
                    "rdVecOf(dv, u8, "@ + addr + ", "@ + digits + ", (a) => "@ + inner.shown("a"@)
                        + ")"@
                } else {
                    "Array.from({ length: "@ + text::decimal(t->Array_1)
                        + " }, (_, i) => ((a) => "@ + inner.shown("a"@) + ")("@ + addr + " + i * "@
                        + digits + "))"@
                },
            )
        }),
{
    let t = ty::bare(ty);
    let name = ty::head(t);
    numbers::lemma_names();
    lemma_kinds(name);
    if !names_list(name) {
        assert(name.len() == 0);
    }
    let el = if names_list(name) {
        ty::type_args(t)[0]
    } else {
        *t->Array_0
    };
    lemma_scalars(name, Place::Given, addr);
    assert(Place::Given.shown(addr) == addr);
    assert(!names_number(name) && name != "bool"@ && name != "char"@) by {
        if names_number(name) {
            lemma_number_of(name);
            numbers::lemma_number_names();
        }
    }
    let inner = law_what_is_read_is_what_is_held(el, structs, Place::Given, "a"@);
    assert(Place::Given.shown("a"@) == "a"@);
    assert forall|memory: Memory, at: int| #[trigger]
        inner.value(memory, at) == held(el, structs, memory, at) by {
        assert(Place::Given.address(memory, at) == at);
    }
    text::law_decimal_spells_the_number(size_of(el, structs));
    (text::decimal(size_of(el, structs)), inner)
}

} // verus!
