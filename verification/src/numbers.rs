//! Numbers: what a binary, an archive, JavaScript and TypeScript each make of the
//! number types, and that they agree.
use crate::expr;
use crate::layout;
use crate::meta::StructView;
use crate::text;
use crate::ty;
use crate::ty::TyView;
use vstd::prelude::*;

verus! {

/// The families of numbers.
pub enum Family {
    Unsigned,
    Signed,
    Float,
}

impl Family {
    /// How the names of its types start.
    pub open spec fn letter(self) -> Seq<char> {
        match self {
            Family::Unsigned => "u"@,
            Family::Signed => "i"@,
            Family::Float => "f"@,
        }
    }

    /// How JavaScript calls it.
    pub open spec fn script_name(self) -> Seq<char> {
        match self {
            Family::Unsigned => "Uint"@,
            Family::Signed => "Int"@,
            Family::Float => "Float"@,
        }
    }

    /// It has a type of so many bytes.
    pub open spec fn has(self, size: nat) -> bool {
        match self {
            Family::Float => size == 4 || size == 8,
            _ => size == 1 || size == 2 || size == 4 || size == 8 || size == 16,
        }
    }
}

/// The name of a number type says how many bits a number takes.
pub open spec fn number_name(family: Family, size: nat) -> Seq<char> {
    family.letter() + text::decimal(8 * size)
}

/// `name` is the type of the numbers of this family that take `size` bytes in the
/// memory of a binary, where an address takes four.
pub open spec fn is_number(name: Seq<char>, family: Family, size: nat) -> bool {
    ||| family.has(size) && name == number_name(family, size)
    ||| name == "usize"@ && family is Unsigned && size == 4
    ||| name == "isize"@ && family is Signed && size == 4
}

/// JavaScript holds an integer of more than 32 bits as a `bigint`.
pub open spec fn is_big(family: Family, size: nat) -> bool {
    !(family is Float) && size > 4
}

/// What JavaScript puts before the name of a family where its numbers are big.
pub open spec fn big_prefix(family: Family, size: nat) -> Seq<char> {
    text::when(is_big(family, size), "Big"@)
}

/// The letters of the names of types.
pub proof fn lemma_names()
    ensures
        "bool"@ == seq!['b', 'o', 'o', 'l'],
        "char"@ == seq!['c', 'h', 'a', 'r'],
        "u8"@ == seq!['u', '8'],
        "i8"@ == seq!['i', '8'],
        "u16"@ == seq!['u', '1', '6'],
        "i16"@ == seq!['i', '1', '6'],
        "u32"@ == seq!['u', '3', '2'],
        "i32"@ == seq!['i', '3', '2'],
        "u64"@ == seq!['u', '6', '4'],
        "i64"@ == seq!['i', '6', '4'],
        "u128"@ == seq!['u', '1', '2', '8'],
        "i128"@ == seq!['i', '1', '2', '8'],
        "f32"@ == seq!['f', '3', '2'],
        "f64"@ == seq!['f', '6', '4'],
        "usize"@ == seq!['u', 's', 'i', 'z', 'e'],
        "isize"@ == seq!['i', 's', 'i', 'z', 'e'],
        "String"@ == seq!['S', 't', 'r', 'i', 'n', 'g'],
        "str"@ == seq!['s', 't', 'r'],
        "SmolStr"@ == seq!['S', 'm', 'o', 'l', 'S', 't', 'r'],
        "Vec"@ == seq!['V', 'e', 'c'],
        "ThinVec"@ == seq!['T', 'h', 'i', 'n', 'V', 'e', 'c'],
        "SmallVec"@ == seq!['S', 'm', 'a', 'l', 'l', 'V', 'e', 'c'],
        "TinyVec"@ == seq!['T', 'i', 'n', 'y', 'V', 'e', 'c'],
        "ArrayVec"@ == seq!['A', 'r', 'r', 'a', 'y', 'V', 'e', 'c'],
        "Box"@ == seq!['B', 'o', 'x'],
        "Rc"@ == seq!['R', 'c'],
        "Arc"@ == seq!['A', 'r', 'c'],
        "Option"@ == seq!['O', 'p', 't', 'i', 'o', 'n'],
{
    reveal_strlit("bool");
    reveal_strlit("char");
    reveal_strlit("u8");
    reveal_strlit("i8");
    reveal_strlit("u16");
    reveal_strlit("i16");
    reveal_strlit("u32");
    reveal_strlit("i32");
    reveal_strlit("u64");
    reveal_strlit("i64");
    reveal_strlit("u128");
    reveal_strlit("i128");
    reveal_strlit("f32");
    reveal_strlit("f64");
    reveal_strlit("usize");
    reveal_strlit("isize");
    reveal_strlit("String");
    reveal_strlit("str");
    reveal_strlit("SmolStr");
    reveal_strlit("Vec");
    reveal_strlit("ThinVec");
    reveal_strlit("SmallVec");
    reveal_strlit("TinyVec");
    reveal_strlit("ArrayVec");
    reveal_strlit("Box");
    reveal_strlit("Rc");
    reveal_strlit("Arc");
    reveal_strlit("Option");
    assert("bool"@ =~= seq!['b', 'o', 'o', 'l']);
    assert("char"@ =~= seq!['c', 'h', 'a', 'r']);
    assert("u8"@ =~= seq!['u', '8']);
    assert("i8"@ =~= seq!['i', '8']);
    assert("u16"@ =~= seq!['u', '1', '6']);
    assert("i16"@ =~= seq!['i', '1', '6']);
    assert("u32"@ =~= seq!['u', '3', '2']);
    assert("i32"@ =~= seq!['i', '3', '2']);
    assert("u64"@ =~= seq!['u', '6', '4']);
    assert("i64"@ =~= seq!['i', '6', '4']);
    assert("u128"@ =~= seq!['u', '1', '2', '8']);
    assert("i128"@ =~= seq!['i', '1', '2', '8']);
    assert("f32"@ =~= seq!['f', '3', '2']);
    assert("f64"@ =~= seq!['f', '6', '4']);
    assert("usize"@ =~= seq!['u', 's', 'i', 'z', 'e']);
    assert("isize"@ =~= seq!['i', 's', 'i', 'z', 'e']);
    assert("String"@ =~= seq!['S', 't', 'r', 'i', 'n', 'g']);
    assert("str"@ =~= seq!['s', 't', 'r']);
    assert("SmolStr"@ =~= seq!['S', 'm', 'o', 'l', 'S', 't', 'r']);
    assert("Vec"@ =~= seq!['V', 'e', 'c']);
    assert("ThinVec"@ =~= seq!['T', 'h', 'i', 'n', 'V', 'e', 'c']);
    assert("SmallVec"@ =~= seq!['S', 'm', 'a', 'l', 'l', 'V', 'e', 'c']);
    assert("TinyVec"@ =~= seq!['T', 'i', 'n', 'y', 'V', 'e', 'c']);
    assert("ArrayVec"@ =~= seq!['A', 'r', 'r', 'a', 'y', 'V', 'e', 'c']);
    assert("Box"@ =~= seq!['B', 'o', 'x']);
    assert("Rc"@ =~= seq!['R', 'c']);
    assert("Arc"@ =~= seq!['A', 'r', 'c']);
    assert("Option"@ =~= seq!['O', 'p', 't', 'i', 'o', 'n']);
}

/// The names of the number types.
pub proof fn lemma_number_names()
    ensures
        number_name(Family::Unsigned, 1) == "u8"@,
        number_name(Family::Unsigned, 2) == "u16"@,
        number_name(Family::Unsigned, 4) == "u32"@,
        number_name(Family::Unsigned, 8) == "u64"@,
        number_name(Family::Unsigned, 16) == "u128"@,
        number_name(Family::Signed, 1) == "i8"@,
        number_name(Family::Signed, 2) == "i16"@,
        number_name(Family::Signed, 4) == "i32"@,
        number_name(Family::Signed, 8) == "i64"@,
        number_name(Family::Signed, 16) == "i128"@,
        number_name(Family::Float, 4) == "f32"@,
        number_name(Family::Float, 8) == "f64"@,
{
    lemma_names();
    reveal_strlit("u");
    reveal_strlit("i");
    reveal_strlit("f");
    lemma_small_decimals();
    assert(number_name(Family::Unsigned, 1) =~= "u8"@);
    assert(number_name(Family::Unsigned, 2) =~= "u16"@);
    assert(number_name(Family::Unsigned, 4) =~= "u32"@);
    assert(number_name(Family::Unsigned, 8) =~= "u64"@);
    assert(number_name(Family::Unsigned, 16) =~= "u128"@);
    assert(number_name(Family::Signed, 1) =~= "i8"@);
    assert(number_name(Family::Signed, 2) =~= "i16"@);
    assert(number_name(Family::Signed, 4) =~= "i32"@);
    assert(number_name(Family::Signed, 8) =~= "i64"@);
    assert(number_name(Family::Signed, 16) =~= "i128"@);
    assert(number_name(Family::Float, 4) =~= "f32"@);
    assert(number_name(Family::Float, 8) =~= "f64"@);
}

proof fn lemma_small_decimals()
    ensures
        text::decimal(8) == seq!['8'],
        text::decimal(16) == seq!['1', '6'],
        text::decimal(32) == seq!['3', '2'],
        text::decimal(64) == seq!['6', '4'],
        text::decimal(128) == seq!['1', '2', '8'],
{
    reveal_strlit("0");
    reveal_strlit("1");
    reveal_strlit("2");
    reveal_strlit("3");
    reveal_strlit("4");
    reveal_strlit("5");
    reveal_strlit("6");
    reveal_strlit("7");
    reveal_strlit("8");
    reveal_strlit("9");
    reveal_with_fuel(text::decimal, 4);
    assert(text::decimal(8) =~= seq!['8']);
    assert(text::decimal(16) =~= seq!['1', '6']);
    assert(text::decimal(32) =~= seq!['3', '2']);
    assert(text::decimal(64) =~= seq!['6', '4']);
    assert(text::decimal(128) =~= seq!['1', '2', '8']);
}

/// A number takes as many bytes in an archive as its name says, and lies at a
/// multiple of them.
pub proof fn law_numbers_are_as_wide_as_their_names(name: Seq<char>, family: Family, size: nat)
    requires
        is_number(name, family, size),
    ensures
        layout::scalar(name) == Some((size, size)),
{
    lemma_names();
    lemma_number_names();
}

/// Nothing but numbers, truth values and characters is a scalar to an archive.
pub proof fn law_scalars_are_numbers(name: Seq<char>) -> (r: (Family, nat))
    requires
        layout::scalar(name) is Some,
        name != "bool"@,
        name != "char"@,
    ensures
        is_number(name, r.0, r.1),
{
    lemma_names();
    lemma_number_names();
    let size = layout::scalar(name)->Some_0.0;
    if name[0] == 'u' {
        (Family::Unsigned, size)
    } else if name[0] == 'i' {
        (Family::Signed, size)
    } else {
        (Family::Float, size)
    }
}

/// A number is encoded at the width at which a shim decodes it: its codec is
/// that of the number type of the same family that takes as many bytes as the
/// archive gives it. There is none for a number of more than 64 bits.
pub proof fn law_numbers_are_encoded_at_their_width(name: Seq<char>, family: Family, size: nat)
    requires
        is_number(name, family, size),
    ensures
        expr::plain_codec(name) == if layout::scalar(name)->Some_0.0 <= 8 {
            Some("r."@ + number_name(family, layout::scalar(name)->Some_0.0))
        } else {
            None
        },
{
    lemma_names();
    lemma_number_names();
    law_numbers_are_as_wide_as_their_names(name, family, size);
    reveal_strlit("r.");
    reveal_strlit("r.u32");
    reveal_strlit("r.i32");
    assert("r.u32"@ =~= "r."@ + "u32"@);
    assert("r.i32"@ =~= "r."@ + "i32"@);
}

/// Truth values and characters have codecs of their own, which write one byte
/// and four.
pub proof fn law_other_scalars_are_encoded()
    ensures
        expr::plain_codec("bool"@) == Some("r.bool"@),
        layout::scalar("bool"@) == Some((1nat, 1nat)),
        expr::plain_codec("char"@) == Some("r.char"@),
        layout::scalar("char"@) == Some((4nat, 4nat)),
{
    lemma_names();
    reveal_strlit("r.");
    reveal_strlit("r.bool");
    reveal_strlit("r.char");
    assert("r.bool"@ =~= "r."@ + "bool"@);
    assert("r.char"@ =~= "r."@ + "char"@);
}

/// The expression that gets a number of so many bytes out of memory.
pub open spec fn getter(family: Family, size: nat, addr: Seq<char>) -> Seq<char> {
    if size == 1 && family is Unsigned {
        "u8["@ + addr + "]"@
    } else {
        "dv.get"@ + big_prefix(family, size) + family.script_name() + text::decimal(8 * size)
            + "("@ + addr + text::when(size > 1, ", true"@) + ")"@
    }
}

/// A number is read as what it is: by the getter of its family that takes as
/// many bytes as the archive gives it, least significant first.
pub proof fn law_numbers_are_read_at_their_width(
    name: Seq<char>,
    family: Family,
    size: nat,
    addr: Seq<char>,
)
    requires
        is_number(name, family, size),
    ensures
        expr::scalar_reader(name, addr) == if layout::scalar(name)->Some_0.0 <= 8 {
            Some(getter(family, layout::scalar(name)->Some_0.0, addr))
        } else {
            None
        },
{
    lemma_names();
    lemma_number_names();
    lemma_small_decimals();
    law_numbers_are_as_wide_as_their_names(name, family, size);
    lemma_getters(addr);
}

proof fn lemma_getters(addr: Seq<char>)
    ensures
        getter(Family::Signed, 1, addr) == "dv.getInt8("@ + addr + ")"@,
        getter(Family::Unsigned, 2, addr) == "dv.getUint16("@ + addr + ", true)"@,
        getter(Family::Signed, 2, addr) == "dv.getInt16("@ + addr + ", true)"@,
        getter(Family::Unsigned, 4, addr) == "dv.getUint32("@ + addr + ", true)"@,
        getter(Family::Signed, 4, addr) == "dv.getInt32("@ + addr + ", true)"@,
        getter(Family::Unsigned, 8, addr) == "dv.getBigUint64("@ + addr + ", true)"@,
        getter(Family::Signed, 8, addr) == "dv.getBigInt64("@ + addr + ", true)"@,
        getter(Family::Float, 4, addr) == "dv.getFloat32("@ + addr + ", true)"@,
        getter(Family::Float, 8, addr) == "dv.getFloat64("@ + addr + ", true)"@,
{
    lemma_getter_starts();
    let (none, some) = (text::when(false, ", true"@), text::when(true, ", true"@));
    assert(none + ")"@ =~= ")"@);
    assert(some + ")"@ == ", true)"@) by {
        reveal_strlit(", true");
        reveal_strlit(")");
        reveal_strlit(", true)");
        assert(some + ")"@ =~= ", true)"@);
    }
    assert forall|start: Seq<char>, more: Seq<char>| #[trigger]
        (start + addr + more + ")"@) == start + addr + (more + ")"@) by {
        assert(start + addr + more + ")"@ =~= start + addr + (more + ")"@));
    }
    assert(getter(Family::Signed, 1, addr) == "dv.getInt8("@ + addr + none + ")"@);
    assert(getter(Family::Unsigned, 2, addr) == "dv.getUint16("@ + addr + some + ")"@);
    assert(getter(Family::Signed, 2, addr) == "dv.getInt16("@ + addr + some + ")"@);
    assert(getter(Family::Unsigned, 4, addr) == "dv.getUint32("@ + addr + some + ")"@);
    assert(getter(Family::Signed, 4, addr) == "dv.getInt32("@ + addr + some + ")"@);
    assert(getter(Family::Unsigned, 8, addr) == "dv.getBigUint64("@ + addr + some + ")"@);
    assert(getter(Family::Signed, 8, addr) == "dv.getBigInt64("@ + addr + some + ")"@);
    assert(getter(Family::Float, 4, addr) == "dv.getFloat32("@ + addr + some + ")"@);
    assert(getter(Family::Float, 8, addr) == "dv.getFloat64("@ + addr + some + ")"@);
}

/// How the expression starts that gets a number out of memory.
pub open spec fn getter_start(family: Family, size: nat) -> Seq<char> {
    "dv.get"@ + big_prefix(family, size) + family.script_name() + text::decimal(8 * size) + "("@
}

proof fn lemma_getter_starts()
    ensures
        getter_start(Family::Signed, 1) == "dv.getInt8("@,
        getter_start(Family::Unsigned, 2) == "dv.getUint16("@,
        getter_start(Family::Signed, 2) == "dv.getInt16("@,
        getter_start(Family::Unsigned, 4) == "dv.getUint32("@,
        getter_start(Family::Signed, 4) == "dv.getInt32("@,
        getter_start(Family::Unsigned, 8) == "dv.getBigUint64("@,
        getter_start(Family::Signed, 8) == "dv.getBigInt64("@,
        getter_start(Family::Float, 4) == "dv.getFloat32("@,
        getter_start(Family::Float, 8) == "dv.getFloat64("@,
{
    lemma_small_decimals();
    reveal_strlit("dv.get");
    reveal_strlit("Big");
    reveal_strlit("Uint");
    reveal_strlit("Int");
    reveal_strlit("Float");
    reveal_strlit("(");
    reveal_strlit("dv.getInt8(");
    reveal_strlit("dv.getUint16(");
    reveal_strlit("dv.getInt16(");
    reveal_strlit("dv.getUint32(");
    reveal_strlit("dv.getInt32(");
    reveal_strlit("dv.getBigUint64(");
    reveal_strlit("dv.getBigInt64(");
    reveal_strlit("dv.getFloat32(");
    reveal_strlit("dv.getFloat64(");
    assert(getter_start(Family::Signed, 1) =~= "dv.getInt8("@);
    assert(getter_start(Family::Unsigned, 2) =~= "dv.getUint16("@);
    assert(getter_start(Family::Signed, 2) =~= "dv.getInt16("@);
    assert(getter_start(Family::Unsigned, 4) =~= "dv.getUint32("@);
    assert(getter_start(Family::Signed, 4) =~= "dv.getInt32("@);
    assert(getter_start(Family::Unsigned, 8) =~= "dv.getBigUint64("@);
    assert(getter_start(Family::Signed, 8) =~= "dv.getBigInt64("@);
    assert(getter_start(Family::Float, 4) =~= "dv.getFloat32("@);
    assert(getter_start(Family::Float, 8) =~= "dv.getFloat64("@);
}

/// A character is read as the number of its code point.
pub proof fn lemma_character_getter(addr: Seq<char>)
    ensures
        "String.fromCodePoint(dv.getUint32("@ + addr + ", true))"@ == "String.fromCodePoint("@
            + getter(Family::Unsigned, 4, addr) + ")"@,
{
    lemma_getters(addr);
    assert("String.fromCodePoint(dv.getUint32("@ == "String.fromCodePoint("@ + "dv.getUint32("@) by {
        reveal_strlit("String.fromCodePoint(dv.getUint32(");
        reveal_strlit("String.fromCodePoint(");
        reveal_strlit("dv.getUint32(");
        assert("String.fromCodePoint(dv.getUint32("@ =~= "String.fromCodePoint("@
            + "dv.getUint32("@);
    }
    assert(", true))"@ == ", true)"@ + ")"@) by {
        reveal_strlit(", true))");
        reveal_strlit(", true)");
        reveal_strlit(")");
        assert(", true))"@ =~= ", true)"@ + ")"@);
    }
    assert("String.fromCodePoint(dv.getUint32("@ + addr + ", true))"@ =~= "String.fromCodePoint("@
        + ("dv.getUint32("@ + addr + ", true)"@) + ")"@);
}

/// A list of numbers is viewed by the typed array of the family whose elements
/// take as many bytes as the archive gives a number. There is none for addresses,
/// nor for numbers of more than 64 bits.
pub proof fn law_numbers_are_viewed_at_their_width(
    ty: TyView,
    structs: Seq<StructView>,
    family: Family,
    size: nat,
)
    requires
        is_number(ty::head(ty::bare(ty)), family, size),
        ty::type_args(ty::bare(ty)).len() == 0,
    ensures
        layout::archived_layout(ty, structs) == Some((size, size)),
        expr::typed_array(ty) == if ty::head(ty::bare(ty)) != "usize"@ && ty::head(ty::bare(ty))
            != "isize"@ && size <= 8 {
            Some(
                big_prefix(family, size) + family.script_name() + text::decimal(8 * size)
                    + "Array"@,
            )
        } else {
            None
        },
{
    lemma_names();
    lemma_number_names();
    law_numbers_are_as_wide_as_their_names(ty::head(ty::bare(ty)), family, size);
    lemma_arrays();
}

/// The typed array whose elements are such numbers.
pub open spec fn array_name(family: Family, size: nat) -> Seq<char> {
    big_prefix(family, size) + family.script_name() + text::decimal(8 * size) + "Array"@
}

proof fn lemma_arrays()
    ensures
        array_name(Family::Unsigned, 1) == "Uint8Array"@,
        array_name(Family::Signed, 1) == "Int8Array"@,
        array_name(Family::Unsigned, 2) == "Uint16Array"@,
        array_name(Family::Signed, 2) == "Int16Array"@,
        array_name(Family::Unsigned, 4) == "Uint32Array"@,
        array_name(Family::Signed, 4) == "Int32Array"@,
        array_name(Family::Unsigned, 8) == "BigUint64Array"@,
        array_name(Family::Signed, 8) == "BigInt64Array"@,
        array_name(Family::Float, 4) == "Float32Array"@,
        array_name(Family::Float, 8) == "Float64Array"@,
{
    lemma_small_decimals();
    reveal_strlit("Big");
    reveal_strlit("Uint");
    reveal_strlit("Int");
    reveal_strlit("Float");
    reveal_strlit("Array");
    reveal_strlit("Uint8Array");
    reveal_strlit("Int8Array");
    reveal_strlit("Uint16Array");
    reveal_strlit("Int16Array");
    reveal_strlit("Uint32Array");
    reveal_strlit("Int32Array");
    reveal_strlit("BigUint64Array");
    reveal_strlit("BigInt64Array");
    reveal_strlit("Float32Array");
    reveal_strlit("Float64Array");
    assert(array_name(Family::Unsigned, 1) =~= "Uint8Array"@);
    assert(array_name(Family::Signed, 1) =~= "Int8Array"@);
    assert(array_name(Family::Unsigned, 2) =~= "Uint16Array"@);
    assert(array_name(Family::Signed, 2) =~= "Int16Array"@);
    assert(array_name(Family::Unsigned, 4) =~= "Uint32Array"@);
    assert(array_name(Family::Signed, 4) =~= "Int32Array"@);
    assert(array_name(Family::Unsigned, 8) =~= "BigUint64Array"@);
    assert(array_name(Family::Signed, 8) =~= "BigInt64Array"@);
    assert(array_name(Family::Float, 4) =~= "Float32Array"@);
    assert(array_name(Family::Float, 8) =~= "Float64Array"@);
}

/// Nothing but numbers is viewed by a typed array.
pub proof fn law_only_numbers_are_viewed(ty: TyView) -> (r: (Family, nat))
    requires
        expr::typed_array(ty) is Some,
    ensures
        is_number(ty::head(ty::bare(ty)), r.0, r.1),
        ty::type_args(ty::bare(ty)).len() == 0,
{
    lemma_names();
    lemma_number_names();
    let name = ty::head(ty::bare(ty));
    assert(layout::scalar(name) is Some);
    law_scalars_are_numbers(name)
}

/// What is said of a number in TypeScript: a `bigint` where it takes more than 32
/// bits and is an integer, else a `number`.
pub proof fn law_numbers_are_declared(ty: TyView, family: Family, size: nat)
    requires
        is_number(ty::head(ty::bare(ty)), family, size),
    ensures
        expr::ts_name(ty) == Some(
            if is_big(family, size) {
                "bigint"@
            } else {
                "number"@
            },
        ),
{
    lemma_names();
    lemma_number_names();
    lemma_only_paths_have_names(ty);
}

/// What has a name is a path.
pub proof fn lemma_only_paths_have_names(ty: TyView)
    requires
        ty::head(ty::bare(ty)).len() > 0,
    ensures
        ty::bare(ty) is Path,
        ty::tuple_types(ty).len() == 0,
{
}

/// The numbers of up to 64 bits and the truth values cross the boundary as they
/// are, and nothing else does.
pub proof fn law_numbers_cross_directly(name: Seq<char>)
    ensures
        expr::is_direct_name(name) <==> name == "bool"@ || exists|family: Family, size: nat|
            size <= 8 && #[trigger] is_number(name, family, size),
{
    lemma_names();
    lemma_number_names();
    if expr::is_direct_name(name) && name != "bool"@ {
        assert(layout::scalar(name) is Some);
        let (family, size) = law_scalars_are_numbers(name);
        law_numbers_are_as_wide_as_their_names(name, family, size);
        assert(size <= 8 && is_number(name, family, size));
    }
    if exists|family: Family, size: nat| size <= 8 && #[trigger] is_number(name, family, size) {
        let (family, size) = choose|family: Family, size: nat|
            size <= 8 && #[trigger] is_number(name, family, size);
        assert(is_number(name, family, size));
    }
}

} // verus!
