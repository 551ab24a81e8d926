//! The annotation: what becomes of an annotated function or struct.
//!
//! An annotated function gets an exported function beside it, its shim, which
//! takes and gives what can cross the boundary of a binary. Which shape the
//! shim has depends on the types of the arguments and of the result.
use crate::bindings;
use crate::expr;
use crate::meta;
use crate::meta::FieldView;
use crate::meta::FnView;
use crate::meta::MetaView;
use crate::meta::RecordView;
use crate::meta::StructView;
use crate::method;
use crate::numbers;
use crate::text;
use crate::ty;
use crate::ty::ArgsView;
use crate::ty::PathArgs;
use crate::ty::Ty;
use crate::ty::TyView;
use crate::wasm;
use vstd::prelude::*;
use vstd::utf8::*;

verus! {

/// A type, with the way it is spelled.
#[derive(Debug)]
pub struct SpelledTy {
    pub ty: Ty,
    pub spelling: String,
}

/// An argument of a function.
#[derive(Debug)]
pub enum Input {
    /// `self`.
    Receiver,
    /// A pattern with a type. There is a name if the pattern is one.
    Typed(Option<String>, SpelledTy),
}

/// The signature of a function.
#[derive(Debug)]
pub struct FnDecl {
    pub name: String,
    pub inputs: Vec<Input>,
    /// What stands behind the arrow, if there is one.
    pub output: Option<SpelledTy>,
}

/// The declaration of a struct.
#[derive(Debug)]
pub struct StructDecl {
    pub name: String,
    /// How many generic parameters it has.
    pub params: usize,
    /// The names and the types of the fields, if the fields have names.
    pub fields: Option<Vec<(String, SpelledTy)>>,
}

/// An annotated item.
#[derive(Debug)]
pub enum ItemDecl {
    Function(FnDecl),
    Struct(StructDecl),
    Unsupported,
}

/// The view of a [`SpelledTy`].
pub struct SpelledView {
    pub ty: TyView,
    pub spelling: Seq<char>,
}

/// The view of an [`Input`].
pub enum InputView {
    Receiver,
    Typed(Option<Seq<char>>, SpelledView),
}

/// The view of an [`FnDecl`].
pub struct FnDeclView {
    pub name: Seq<char>,
    pub inputs: Seq<InputView>,
    pub output: Option<SpelledView>,
}

/// The view of a [`StructDecl`].
pub struct StructDeclView {
    pub name: Seq<char>,
    pub params: nat,
    pub fields: Option<Seq<(Seq<char>, SpelledView)>>,
}

/// The view of an [`ItemDecl`].
pub enum ItemDeclView {
    Function(FnDeclView),
    Struct(StructDeclView),
    Unsupported,
}

impl View for SpelledTy {
    type V = SpelledView;

    open spec fn view(&self) -> SpelledView {
        SpelledView { ty: self.ty@, spelling: self.spelling@ }
    }
}

impl View for Input {
    type V = InputView;

    open spec fn view(&self) -> InputView {
        match self {
            Input::Receiver => InputView::Receiver,
            Input::Typed(None, t) => InputView::Typed(None, t@),
            Input::Typed(Some(n), t) => InputView::Typed(Some(n@), t@),
        }
    }
}

/// The views of a list of named types.
pub open spec fn spelled_views(fields: Seq<(String, SpelledTy)>) -> Seq<(Seq<char>, SpelledView)> {
    fields.map_values(|f: (String, SpelledTy)| (f.0@, f.1@))
}

/// The names and the spellings of a list of named types.
pub open spec fn spellings(fields: Seq<(Seq<char>, SpelledView)>) -> Seq<(Seq<char>, Seq<char>)> {
    fields.map_values(|f: (Seq<char>, SpelledView)| (f.0, f.1.spelling))
}

/// The views of a list of inputs.
pub open spec fn input_views(inputs: Seq<Input>) -> Seq<InputView> {
    inputs.map_values(|i: Input| i@)
}

impl View for FnDecl {
    type V = FnDeclView;

    open spec fn view(&self) -> FnDeclView {
        FnDeclView {
            name: self.name@,
            inputs: input_views(self.inputs@),
            output: match self.output {
                Some(t) => Some(t@),
                None => None,
            },
        }
    }
}

impl View for StructDecl {
    type V = StructDeclView;

    open spec fn view(&self) -> StructDeclView {
        StructDeclView {
            name: self.name@,
            params: self.params as nat,
            fields: match self.fields {
                Some(f) => Some(spelled_views(f@)),
                None => None,
            },
        }
    }
}

impl View for ItemDecl {
    type V = ItemDeclView;

    open spec fn view(&self) -> ItemDeclView {
        match self {
            ItemDecl::Function(f) => ItemDeclView::Function(f@),
            ItemDecl::Struct(s) => ItemDeclView::Struct(s@),
            ItemDecl::Unsupported => ItemDeclView::Unsupported,
        }
    }
}

/// The names and the types of a list of fields.
pub open spec fn field_trees(fields: Seq<(Seq<char>, SpelledView)>) -> Seq<FieldView> {
    fields.map_values(|f: (Seq<char>, SpelledView)| (f.0, f.1.ty))
}

/// Why an item cannot be annotated.
#[derive(Clone, Copy, Debug, PartialEq, Eq, Structural)]
pub enum Refusal {
    /// Neither a function nor a struct.
    UnsupportedItem,
    /// A function without an arrow.
    NoResult,
    /// A function that takes `self`.
    Method,
    /// A struct with generic parameters.
    Generic,
    /// A struct whose fields have no names.
    UnnamedFields,
}

impl Refusal {
    /// What the user is told.
    pub open spec fn text(self) -> Seq<char> {
        match self {
            Refusal::UnsupportedItem => "#[wasm_zero] supports free functions and structs with named fields"@,
            Refusal::NoResult => "wasm_zero requires a return type that implements rkyv::Serialize"@,
            Refusal::Method => "wasm_zero does not support methods (functions taking `self`)"@,
            Refusal::Generic => "#[wasm_zero] structs cannot be generic"@,
            Refusal::UnnamedFields => "#[wasm_zero] structs need named fields"@,
        }
    }

    /// What the user is told.
    pub fn message(self) -> (r: &'static str)
        ensures
            r@ == self.text(),
    {
        match self {
            Refusal::UnsupportedItem => "#[wasm_zero] supports free functions and structs with named fields",
            Refusal::NoResult => "wasm_zero requires a return type that implements rkyv::Serialize",
            Refusal::Method => "wasm_zero does not support methods (functions taking `self`)",
            Refusal::Generic => "#[wasm_zero] structs cannot be generic",
            Refusal::UnnamedFields => "#[wasm_zero] structs need named fields",
        }
    }
}

/// The shape of a shim.
#[derive(Clone, Copy, Debug, PartialEq, Eq, Structural)]
pub enum Shim {
    /// Takes the arguments and returns the result as they are.
    Direct,
    /// Takes the arguments as they are; writes the result to the output buffer.
    ScalarArgs,
    /// Takes no arguments; writes the result to the output buffer.
    NoArgs,
    /// Reads the only argument from the input buffer; writes the result to the
    /// output buffer.
    OneArg,
    /// Reads the arguments as a tuple from the input buffer; writes the result
    /// to the output buffer.
    ManyArgs,
}

/// How a shim starts.
pub const SHIM: &'static str = "#[unsafe(no_mangle)]\npub unsafe extern \"C\" fn ";

/// The last parameter of a shim that writes to the output buffer, and the
/// number that it returns.
pub const SHIM_OUT: &'static str = "out_ptr: u32) -> u32 {\n";

/// How a shim reads its arguments from the input buffer, up to their type.
pub const SHIM_READ: &'static str = " = match unsafe { ::wasm_zero_app::mem::from_buffer::<";

/// The rest of it.
pub const SHIM_READ_END: &'static str = ">(in_ptr as *const u8) } {\n\
     \x20       Ok(read) => read,\n\
     \x20       Err(e) => return ::wasm_zero::mem::ErrorCode::code(e),\n\
     \x20   };\n";

/// How a shim writes the result behind the header of the output buffer.
pub const SHIM_WRITE: &'static str = "    let __out = unsafe {\n\
     \x20       ::core::slice::from_raw_parts_mut(\n\
     \x20           out_ptr as *mut u8,\n\
     \x20           ::wasm_zero::mem::HEADER + ::wasm_zero::mem::MAX_BUFFER_SIZE,\n\
     \x20       )\n\
     \x20   };\n\
     \x20   let __written = ::rkyv::api::high::to_bytes_in::<_, ::rkyv::rancor::Error>(\n\
     \x20       &__result,\n\
     \x20       ::rkyv::ser::writer::Buffer::from(&mut __out[::wasm_zero::mem::HEADER..]),\n\
     \x20   )\n\
     \x20   .map(|buf| buf.len() as u32);\n\
     \x20   ::wasm_zero::mem::finish_call(__out, 0, __written.ok())\n\
     }\n";

/// How the text that puts a record into a section of the binary starts, up to
/// the name of the section.
pub const META_START: &'static str = "#[cfg(target_arch = \"wasm32\")]\n\
     #[doc(hidden)]\n\
     #[used]\n\
     #[unsafe(link_section = \"";

/// How it goes on, up to the name of the item.
pub const META_STATIC: &'static str = "\")]\nstatic __WASM_ZERO_META_";

/// What to emit for a function.
#[derive(Debug)]
pub struct FnPlan {
    /// The name of the shim.
    pub shim: String,
    pub shape: Shim,
    /// The function returns nothing.
    pub unit: bool,
    /// The text of the shim.
    pub source: String,
    /// The metadata record.
    pub record: Vec<u8>,
    /// The text that puts the record into the binary.
    pub meta: String,
}

/// What to emit for a struct.
#[derive(Debug)]
pub struct StructPlan {
    /// The metadata record.
    pub record: Vec<u8>,
    /// The text that puts the record into the binary.
    pub meta: String,
}

/// What to emit for an item.
#[derive(Debug)]
pub enum Plan {
    Function(FnPlan),
    Struct(StructPlan),
}

/// Are there no arguments behind the name?
pub open spec fn no_path_args(args: ArgsView) -> bool {
    match args {
        ArgsView::Bare => true,
        ArgsView::AngleBracketed(list) => list.len() == 0,
        ArgsView::Parenthesized => false,
    }
}

/// Is a value of this type a single number to a binary? Parentheses round a type
/// change nothing.
pub open spec fn is_direct_ty(ty: TyView) -> bool {
    ty::grouped(ty) matches TyView::Path(segments) && segments.len() > 0 && no_path_args(
        segments.last().args,
    ) && expr::is_direct_name(segments.last().ident)
}

/// Is one of the inputs `self`?
pub open spec fn has_receiver(inputs: Seq<InputView>) -> bool {
    exists|i: int| 0 <= i < inputs.len() && (#[trigger] inputs[i]) is Receiver
}

/// The type of an input.
pub open spec fn input_ty(input: InputView) -> TyView {
    input->Typed_1.ty
}

/// The name and the spelled type of the input with index `i`. One without a
/// name is called by its index.
pub open spec fn input_pair(input: InputView, i: int) -> (Seq<char>, Seq<char>) {
    (
        match input->Typed_0 {
            Some(name) => name,
            None => "arg"@ + text::decimal(i as nat),
        },
        input->Typed_1.spelling,
    )
}

/// The names and the spelled types of the inputs.
pub open spec fn input_pairs(inputs: Seq<InputView>) -> Seq<(Seq<char>, Seq<char>)> {
    Seq::new(inputs.len(), |i: int| input_pair(inputs[i], i))
}

/// Can all the inputs be handed over as they are?
pub open spec fn all_direct(inputs: Seq<InputView>) -> bool {
    forall|i: int| 0 <= i < inputs.len() ==> is_direct_ty(input_ty(#[trigger] inputs[i]))
}

/// The shape of the shim of a function.
pub open spec fn shape_of(inputs: Seq<InputView>, ret: TyView) -> Shim {
    if (method::returns_unit(ret) || is_direct_ty(ret)) && all_direct(inputs) {
        Shim::Direct
    } else if inputs.len() == 0 {
        Shim::NoArgs
    } else if all_direct(inputs) {
        Shim::ScalarArgs
    } else if inputs.len() == 1 {
        Shim::OneArg
    } else {
        Shim::ManyArgs
    }
}

/// `prefix` with the numbers below `n`.
pub open spec fn numbered(prefix: Seq<char>, n: nat) -> Seq<Seq<char>> {
    Seq::new(n, |i: int| prefix + text::decimal(i as nat))
}

/// The parameters of a shim that takes the arguments as they are.
pub open spec fn scalar_params(inputs: Seq<InputView>) -> Seq<Seq<char>> {
    Seq::new(
        inputs.len(),
        |i: int| "a"@ + text::decimal(i as nat) + ": "@ + inputs[i]->Typed_1.spelling,
    )
}

/// The spellings of the types of the inputs.
pub open spec fn spelled_types(inputs: Seq<InputView>) -> Seq<Seq<char>> {
    Seq::new(inputs.len(), |i: int| inputs[i]->Typed_1.spelling)
}

/// What a shim takes before the output buffer.
pub open spec fn shim_params(inputs: Seq<InputView>, shape: Shim) -> Seq<char> {
    match shape {
        Shim::Direct => text::join(scalar_params(inputs), ", "@),
        Shim::ScalarArgs => text::join(scalar_params(inputs), ", "@) + ", "@,
        Shim::NoArgs => Seq::empty(),
        Shim::OneArg => "in_ptr: u32, "@,
        Shim::ManyArgs => "in_ptr: u32, "@,
    }
}

/// How a shim gets its arguments, if it reads them from the input buffer.
pub open spec fn shim_prelude(inputs: Seq<InputView>, shape: Shim) -> Seq<char> {
    match shape {
        Shim::OneArg => {
            let ty = inputs[0]->Typed_1.spelling;
            "    let __arg: "@ + ty + SHIM_READ@ + ty + SHIM_READ_END@
        },
        Shim::ManyArgs => {
            let ty = "("@ + text::join(spelled_types(inputs), ", "@) + ")"@;
            "    let __args: "@ + ty + SHIM_READ@ + ty + SHIM_READ_END@
        },
        _ => Seq::empty(),
    }
}

/// What a shim hands to the function.
pub open spec fn shim_args(n: nat, shape: Shim) -> Seq<char> {
    match shape {
        Shim::NoArgs => Seq::empty(),
        Shim::OneArg => "__arg"@,
        Shim::ManyArgs => text::join(numbered("__args."@, n), ", "@),
        _ => text::join(numbered("a"@, n), ", "@),
    }
}

/// The text of the shim of a function: it gets the arguments in the way of its
/// shape, calls the function, and returns the result as it is or writes it to
/// the output buffer and returns a code.
pub open spec fn shim_source(f: FnDeclView, shape: Shim) -> Seq<char> {
    let ret = f.output->0;
    let call = f.name + "("@ + shim_args(f.inputs.len(), shape) + ")"@;
    let start = SHIM@ + method::shim(f.name) + "("@ + shim_params(f.inputs, shape);
    if shape == Shim::Direct {
        start + ")"@ + text::when(
            !method::returns_unit(ret.ty),
            " -> "@ + ret.spelling,
        ) + " {\n    "@ + call + "\n}\n"@
    } else {
        start + SHIM_OUT@ + shim_prelude(f.inputs, shape) + "    let __result: "@ + ret.spelling
            + " = "@ + call + ";\n"@ + SHIM_WRITE@
    }
}

/// The bytes of a record as numbers.
pub open spec fn byte_texts(record: Seq<u8>) -> Seq<Seq<char>> {
    record.map_values(|b: u8| text::decimal(b as nat))
}

/// The text that puts the record of an item into the metadata of a binary: a
/// static that holds the bytes of the record and is linked into the section that
/// the generator reads.
pub open spec fn meta_text(name: Seq<char>, record: Seq<u8>) -> Seq<char> {
    META_START@ + wasm::META_NAME@ + META_STATIC@ + name + ": [u8; "@ + text::decimal(record.len())
        + "] = ["@ + text::join(byte_texts(record), ", "@) + "];\n"@
}

/// Why a function cannot be annotated, if it cannot.
pub open spec fn fn_refusal(f: FnDeclView) -> Option<Refusal> {
    if f.output is None {
        Some(Refusal::NoResult)
    } else if has_receiver(f.inputs) {
        Some(Refusal::Method)
    } else {
        None
    }
}

/// The metadata record of a function.
pub open spec fn fn_record(f: FnDeclView) -> Seq<u8> {
    meta::record_bytes(meta::fn_fields(f.name, f.output->0.spelling, input_pairs(f.inputs)))
}

/// `plan` is that of the function `f`.
pub open spec fn plans_fn(plan: FnPlan, f: FnDeclView) -> bool {
    &&& plan.shim@ == method::shim(f.name)
    &&& plan.shape == shape_of(f.inputs, f.output->0.ty)
    &&& plan.unit == method::returns_unit(f.output->0.ty)
    &&& plan.source@ == shim_source(f, plan.shape)
    &&& plan.record@ == fn_record(f)
    &&& plan.meta@ == meta_text(f.name, plan.record@)
}

/// Why a struct cannot be annotated, if it cannot.
pub open spec fn struct_refusal(s: StructDeclView) -> Option<Refusal> {
    if s.params > 0 {
        Some(Refusal::Generic)
    } else if s.fields is None {
        Some(Refusal::UnnamedFields)
    } else {
        None
    }
}

/// The metadata record of a struct.
pub open spec fn struct_record(s: StructDeclView) -> Seq<u8> {
    meta::record_bytes(meta::struct_fields(s.name, spellings(s.fields->0)))
}

/// `plan` is that of the struct `s`.
pub open spec fn plans_struct(plan: StructPlan, s: StructDeclView) -> bool {
    plan.record@ == struct_record(s) && plan.meta@ == meta_text(s.name, plan.record@)
}

/// Why an item cannot be annotated, if it cannot.
pub open spec fn refusal(item: ItemDeclView) -> Option<Refusal> {
    match item {
        ItemDeclView::Function(f) => fn_refusal(f),
        ItemDeclView::Struct(s) => struct_refusal(s),
        ItemDeclView::Unsupported => Some(Refusal::UnsupportedItem),
    }
}

/// `plan` is that of the item.
pub open spec fn plans(plan: Plan, item: ItemDeclView) -> bool {
    match item {
        ItemDeclView::Function(f) => plan matches Plan::Function(p) && plans_fn(p, f),
        ItemDeclView::Struct(s) => plan matches Plan::Struct(p) && plans_struct(p, s),
        ItemDeclView::Unsupported => false,
    }
}

/// Is a value of this type a single number to a binary?
pub fn is_direct_scalar(ty: &Ty) -> (r: bool)
    ensures
        r == is_direct_ty(ty@),
{
    let inner = ty::ungroup(ty);
    if let Ty::Path(segments) = inner {
        if segments.len() == 0 {
            return false;
        }
        let segment = &segments[segments.len() - 1];
        assert(inner@->Path_0.last() == ty::segment_view(*segment));
        let no_args = match &segment.args {
            PathArgs::Bare => true,
            PathArgs::AngleBracketed(list) => list.len() == 0,
            PathArgs::Parenthesized => false,
        };
        return no_args && expr::direct_name(segment.ident.as_str());
    }
    false
}

/// The name and the spelled type of an input that is not `self`.
fn pair_of_input(name: &Option<String>, ty: &SpelledTy, i: usize) -> (r: (String, String))
    ensures
        (r.0@, r.1@) == input_pair(Input::Typed(*name, *ty)@, i as int),
{
    let name = match name {
        Some(n) => n.clone(),
        None => {
            let mut n: String = "arg".to_owned();
            n.append(text::decimal_text(i as u64).as_str());
            n
        },
    };
    (name, ty.spelling.clone())
}

/// The names and the spelled types of the inputs, and whether all of them can
/// be handed over as they are; nothing, if one is `self`.
fn read_inputs(inputs: &Vec<Input>) -> (r: Option<(Vec<(String, String)>, bool)>)
    ensures
        match r {
            Some((pairs, direct)) => {
                &&& !has_receiver(input_views(inputs@))
                &&& meta::pair_views(pairs@) == input_pairs(input_views(inputs@))
                &&& direct == all_direct(input_views(inputs@))
            },
            None => has_receiver(input_views(inputs@)),
        },
{
    let ghost views = input_views(inputs@);
    let mut pairs: Vec<(String, String)> = Vec::new();
    let mut direct: bool = true;
    let mut i: usize = 0;
    assert(meta::pair_views(pairs@) =~= input_pairs(views).take(0));
    while i < inputs.len()
        invariant
            i <= inputs@.len(),
            views == input_views(inputs@),
            meta::pair_views(pairs@) == input_pairs(views).take(i as int),
            direct == (forall|j: int| 0 <= j < i ==> is_direct_ty(input_ty(#[trigger] views[j]))),
            forall|j: int| 0 <= j < i ==> !((#[trigger] views[j]) is Receiver),
        decreases inputs@.len() - i,
    {
        assert(views[i as int] == inputs@[i as int]@);
        match &inputs[i] {
            Input::Receiver => {
                assert(views[i as int] is Receiver);
                return None;
            },
            Input::Typed(name, ty) => {
                let ghost before = meta::pair_views(pairs@);
                let pair = pair_of_input(name, ty, i);
                pairs.push(pair);
                assert(meta::pair_views(pairs@) =~= before.push((pair.0@, pair.1@)));
                assert(meta::pair_views(pairs@) =~= input_pairs(views).take(i + 1));
                let this = is_direct_scalar(&ty.ty);
                assert(this == is_direct_ty(input_ty(views[i as int])));
                direct = direct && this;
            },
        }
        i = i + 1;
    }
    assert(input_pairs(views).take(i as int) =~= input_pairs(views));
    Some((pairs, direct))
}

/// `prefix` with the numbers below `n`.
fn numbered_texts(prefix: &str, n: usize) -> (r: Vec<String>)
    ensures
        text::texts(r@) == numbered(prefix@, n as nat),
{
    let ghost want = numbered(prefix@, n as nat);
    let mut out: Vec<String> = Vec::new();
    let mut i: usize = 0;
    assert(text::texts(out@) =~= want.take(0));
    while i < n
        invariant
            i <= n,
            want == numbered(prefix@, n as nat),
            text::texts(out@) == want.take(i as int),
        decreases n - i,
    {
        let mut piece: String = prefix.to_owned();
        piece.append(text::decimal_text(i as u64).as_str());
        text::gather(&mut out, piece);
        assert(text::texts(out@) =~= want.take(i + 1));
        i = i + 1;
    }
    assert(want.take(i as int) =~= want);
    out
}

/// The spellings of the types of the inputs, and the parameters of a shim that
/// takes the arguments as they are.
fn typed_params(inputs: &Vec<Input>) -> (r: (Vec<String>, Vec<String>))
    requires
        !has_receiver(input_views(inputs@)),
    ensures
        text::texts(r.0@) == spelled_types(input_views(inputs@)),
        text::texts(r.1@) == scalar_params(input_views(inputs@)),
{
    let ghost views = input_views(inputs@);
    let mut types: Vec<String> = Vec::new();
    let mut params: Vec<String> = Vec::new();
    let mut i: usize = 0;
    assert(text::texts(types@) =~= spelled_types(views).take(0));
    assert(text::texts(params@) =~= scalar_params(views).take(0));
    while i < inputs.len()
        invariant
            i <= inputs@.len(),
            views == input_views(inputs@),
            !has_receiver(views),
            text::texts(types@) == spelled_types(views).take(i as int),
            text::texts(params@) == scalar_params(views).take(i as int),
        decreases inputs@.len() - i,
    {
        assert(views[i as int] == inputs@[i as int]@);
        match &inputs[i] {
            Input::Receiver => {
                assert(views[i as int] is Receiver);
            },
            Input::Typed(_, ty) => {
                let mut param: String = "a".to_owned();
                param.append(text::decimal_text(i as u64).as_str());
                param.append(": ");
                param.append(ty.spelling.as_str());
                text::gather(&mut params, param);
                text::gather(&mut types, ty.spelling.clone());
                assert(text::texts(types@) =~= spelled_types(views).take(i + 1));
                assert(text::texts(params@) =~= scalar_params(views).take(i + 1));
            },
        }
        i = i + 1;
    }
    assert(spelled_types(views).take(i as int) =~= spelled_types(views));
    assert(scalar_params(views).take(i as int) =~= scalar_params(views));
    (types, params)
}

/// How a shim reads arguments of this type from the input buffer into `name`.
fn reading_prelude(name: &str, ty: &str) -> (r: String)
    ensures
        r@ == name@ + ty@ + SHIM_READ@ + ty@ + SHIM_READ_END@,
{
    let mut out: String = text::around(name, ty, SHIM_READ);
    out.append(ty);
    out.append(SHIM_READ_END);
    out
}

/// What depends on the shape: what a shim takes, how it reads its arguments and
/// what it hands to the function.
fn shim_parts(f: &FnDecl, shape: Shim) -> (r: (String, String, String))
    requires
        !has_receiver(f@.inputs),
        shape == Shim::OneArg ==> f.inputs@.len() > 0,
    ensures
        r.0@ == shim_params(f@.inputs, shape),
        r.1@ == shim_prelude(f@.inputs, shape),
        r.2@ == shim_args(f@.inputs.len(), shape),
{
    let n: usize = f.inputs.len();
    let ghost views = f@.inputs;
    let (types, params) = typed_params(&f.inputs);
    assert(text::texts(types@).len() == types@.len());
    match shape {
        Shim::Direct => (
            text::join_texts(&params, ", "),
            String::new(),
            text::join_texts(&numbered_texts("a", n), ", "),
        ),
        Shim::ScalarArgs => {
            let mut all: String = text::join_texts(&params, ", ");
            all.append(", ");
            (all, String::new(), text::join_texts(&numbered_texts("a", n), ", "))
        },
        Shim::NoArgs => (String::new(), String::new(), String::new()),
        Shim::OneArg => {
            assert(types@[0]@ == spelled_types(views)[0]) by {
                assert(text::texts(types@)[0] == types@[0]@);
            }
            (
                "in_ptr: u32, ".to_owned(),
                reading_prelude("    let __arg: ", types[0].as_str()),
                "__arg".to_owned(),
            )
        },
        Shim::ManyArgs => {
            let tuple: String = text::around("(", text::join_texts(&types, ", ").as_str(), ")");
            (
                "in_ptr: u32, ".to_owned(),
                reading_prelude("    let __args: ", tuple.as_str()),
                text::join_texts(&numbered_texts("__args.", n), ", "),
            )
        },
    }
}

/// The text of the shim of a function, in this shape.
pub fn shim_text(f: &FnDecl, shape: Shim) -> (r: String)
    requires
        fn_refusal(f@) is None,
        shape == Shim::OneArg ==> f.inputs@.len() > 0,
    ensures
        r@ == shim_source(f@, shape),
{
    let (params, prelude, args) = shim_parts(f, shape);
    let mut call: String = text::around(f.name.as_str(), "(", args.as_str());
    call.append(")");
    let mut out: String = text::around(SHIM, method::shim_name(f.name.as_str()).as_str(), "(");
    out.append(params.as_str());
    match &f.output {
        Some(ret) => {
            match shape {
                Shim::Direct => {
                    let mut arrow: String = " -> ".to_owned();
                    arrow.append(ret.spelling.as_str());
                    out.append(")");
                    text::append_when(&mut out, !method::unit_result(&ret.ty), arrow.as_str());
                    out.append(" {\n    ");
                    out.append(call.as_str());
                    out.append("\n}\n");
                },
                _ => {
                    out.append(SHIM_OUT);
                    out.append(prelude.as_str());
                    out.append("    let __result: ");
                    out.append(ret.spelling.as_str());
                    out.append(" = ");
                    out.append(call.as_str());
                    out.append(";\n");
                    out.append(SHIM_WRITE);
                },
            }
        },
        None => {},
    }
    out
}

/// The bytes of a record as numbers.
fn byte_numbers(record: &Vec<u8>) -> (r: Vec<String>)
    ensures
        text::texts(r@) == byte_texts(record@),
{
    let ghost want = byte_texts(record@);
    let mut out: Vec<String> = Vec::new();
    let mut i: usize = 0;
    assert(text::texts(out@) =~= want.take(0));
    while i < record.len()
        invariant
            i <= record@.len(),
            want == byte_texts(record@),
            text::texts(out@) == want.take(i as int),
        decreases record@.len() - i,
    {
        text::gather(&mut out, text::decimal_text(record[i] as u64));
        assert(text::texts(out@) =~= want.take(i + 1));
        i = i + 1;
    }
    assert(want.take(i as int) =~= want);
    out
}

/// The text that puts the record of an item into the metadata of a binary.
pub fn meta_source(name: &str, record: &Vec<u8>) -> (r: String)
    ensures
        r@ == meta_text(name@, record@),
{
    let mut out: String = text::around(META_START, wasm::META_NAME, META_STATIC);
    out.append(name);
    out.append(": [u8; ");
    out.append(text::decimal_text(record.len() as u64).as_str());
    out.append("] = [");
    out.append(text::join_texts(&byte_numbers(record), ", ").as_str());
    out.append("];\n");
    out
}

/// What to emit for a function.
pub fn expand_fn(f: &FnDecl) -> (r: Result<FnPlan, Refusal>)
    ensures
        match r {
            Ok(plan) => fn_refusal(f@) is None && plans_fn(plan, f@),
            Err(e) => fn_refusal(f@) == Some(e),
        },
{
    let ret = match &f.output {
        None => {
            return Err(Refusal::NoResult);
        },
        Some(ret) => ret,
    };
    let (pairs, direct) = match read_inputs(&f.inputs) {
        None => {
            return Err(Refusal::Method);
        },
        Some(read) => read,
    };
    let unit = method::unit_result(&ret.ty);
    let shape = if (unit || is_direct_scalar(&ret.ty)) && direct {
        Shim::Direct
    } else if f.inputs.len() == 0 {
        Shim::NoArgs
    } else if direct {
        Shim::ScalarArgs
    } else if f.inputs.len() == 1 {
        Shim::OneArg
    } else {
        Shim::ManyArgs
    };
    let fields = meta::fn_record(f.name.as_str(), ret.spelling.as_str(), &pairs);
    let record = meta::encode_record(&fields);
    let meta = meta_source(f.name.as_str(), &record);
    Ok(
        FnPlan {
            shim: method::shim_name(f.name.as_str()),
            shape,
            unit,
            source: shim_text(f, shape),
            record,
            meta,
        },
    )
}

/// The names and the spellings of a list of named types.
fn spelled_pairs(fields: &Vec<(String, SpelledTy)>) -> (r: Vec<(String, String)>)
    ensures
        meta::pair_views(r@) == spellings(spelled_views(fields@)),
{
    let ghost want = spellings(spelled_views(fields@));
    let mut pairs: Vec<(String, String)> = Vec::new();
    let mut i: usize = 0;
    assert(meta::pair_views(pairs@) =~= want.take(0));
    while i < fields.len()
        invariant
            i <= fields@.len(),
            want == spellings(spelled_views(fields@)),
            meta::pair_views(pairs@) == want.take(i as int),
        decreases fields@.len() - i,
    {
        let ghost before = meta::pair_views(pairs@);
        let pair = (fields[i].0.clone(), fields[i].1.spelling.clone());
        pairs.push(pair);
        assert(meta::pair_views(pairs@) =~= before.push((pair.0@, pair.1@)));
        assert(meta::pair_views(pairs@) =~= want.take(i + 1));
        i = i + 1;
    }
    assert(want.take(i as int) =~= want);
    pairs
}

/// What to emit for a struct.
pub fn expand_struct(s: &StructDecl) -> (r: Result<StructPlan, Refusal>)
    ensures
        match r {
            Ok(plan) => struct_refusal(s@) is None && plans_struct(plan, s@),
            Err(e) => struct_refusal(s@) == Some(e),
        },
{
    if s.params > 0 {
        return Err(Refusal::Generic);
    }
    match &s.fields {
        None => Err(Refusal::UnnamedFields),
        Some(fields) => {
            let pairs = spelled_pairs(fields);
            let record = meta::encode_record(&meta::struct_record(s.name.as_str(), &pairs));
            let meta = meta_source(s.name.as_str(), &record);
            Ok(StructPlan { record, meta })
        },
    }
}

/// What to emit for an item.
pub fn expand(item: &ItemDecl) -> (r: Result<Plan, Refusal>)
    ensures
        match r {
            Ok(plan) => refusal(item@) is None && plans(plan, item@),
            Err(e) => refusal(item@) == Some(e),
        },
{
    match item {
        ItemDecl::Function(f) => match expand_fn(f) {
            Ok(plan) => Ok(Plan::Function(plan)),
            Err(e) => Err(e),
        },
        ItemDecl::Struct(s) => match expand_struct(s) {
            Ok(plan) => Ok(Plan::Struct(plan)),
            Err(e) => Err(e),
        },
        ItemDecl::Unsupported => Err(Refusal::UnsupportedItem),
    }
}

/// An item in the syntax tree of `syn`.
#[verifier::external_type_specification]
#[verifier::external_body]
pub struct ExItem(syn::Item);

/// A function in the syntax tree of `syn`.
#[verifier::external_type_specification]
#[verifier::external_body]
pub struct ExItemFn(syn::ItemFn);

/// A struct in the syntax tree of `syn`.
#[verifier::external_type_specification]
#[verifier::external_body]
pub struct ExItemStruct(syn::ItemStruct);

/// An argument in the syntax tree of `syn`.
#[verifier::external_type_specification]
#[verifier::external_body]
pub struct ExFnArg(syn::FnArg);

/// A field in the syntax tree of `syn`.
#[verifier::external_type_specification]
#[verifier::external_body]
pub struct ExField(syn::Field);

/// The item that `syn::parse_str::<syn::Item>` finds in a text, with its types
/// as `quote` writes them out, or what `syn` says of a text that is no item.
pub uninterp spec fn parsed_item(text: Seq<char>) -> Result<ItemDeclView, Seq<char>>;

/// Copies a type out of the syntax tree of `syn` and writes it out with `quote`,
/// token by token. Claims nothing of the result: [`parse_item`] does.
#[verifier::external_body]
fn spelled(ty: &syn::Type) -> SpelledTy {
    SpelledTy { ty: ty::lower(ty), spelling: quote::ToTokens::to_token_stream(ty).to_string() }
}

/// Copies an argument out of the syntax tree of `syn`. Claims nothing of the
/// result: [`parse_item`] does.
#[verifier::external_body]
fn lower_input(input: &syn::FnArg) -> Input {
    match input {
        syn::FnArg::Receiver(_) => Input::Receiver,
        syn::FnArg::Typed(t) => {
            let name = match &*t.pat {
                syn::Pat::Ident(p) => Some(p.ident.to_string()),
                _ => None,
            };
            Input::Typed(name, spelled(&t.ty))
        },
    }
}

/// Copies a signature out of the syntax tree of `syn`. Claims nothing of the
/// result: [`parse_item`] does.
#[verifier::external_body]
fn lower_fn(f: &syn::ItemFn) -> FnDecl {
    let output = match &f.sig.output {
        syn::ReturnType::Default => None,
        syn::ReturnType::Type(_, ty) => Some(spelled(ty)),
    };
    let inputs = f.sig.inputs.iter().map(lower_input).collect();
    FnDecl { name: f.sig.ident.to_string(), inputs, output }
}

/// Copies a field with a name out of the syntax tree of `syn`. Claims nothing of
/// the result: [`parse_item`] does.
#[verifier::external_body]
fn lower_field(field: &syn::Field) -> (String, SpelledTy) {
    let name = field.ident.as_ref().map(|i| i.to_string()).unwrap_or_default();
    (name, spelled(&field.ty))
}

/// Copies a struct out of the syntax tree of `syn`. Claims nothing of the
/// result: [`parse_item`] does.
#[verifier::external_body]
fn lower_struct(s: &syn::ItemStruct) -> StructDecl {
    let fields = match &s.fields {
        syn::Fields::Named(f) => Some(f.named.iter().map(lower_field).collect()),
        _ => None,
    };
    StructDecl { name: s.ident.to_string(), params: s.generics.params.len(), fields }
}

/// Copies an item out of the syntax tree of `syn`. Claims nothing of the result:
/// [`parse_item`] does.
#[verifier::external_body]
fn lower_item(item: &syn::Item) -> ItemDecl {
    match item {
        syn::Item::Fn(f) => ItemDecl::Function(lower_fn(f)),
        syn::Item::Struct(s) => ItemDecl::Struct(lower_struct(s)),
        _ => ItemDecl::Unsupported,
    }
}

/// Calls `syn::parse_str::<syn::Item>`, which parses the whole of `text` as a
/// Rust item, and has `quote` write out the types in it. `proc_macro2`, which
/// makes and prints the tokens, is built with its own lexer and printer alone, so
/// that the item, the spelling of its types, and what is said of a text that is
/// no item depend on nothing but `text`. Claims only that: what comes back has
/// the name [`parsed_item`].
#[verifier::external_body]
pub(crate) fn parse_item(text: &str) -> (r: Result<ItemDecl, String>)
    ensures
        match r {
            Ok(got) => parsed_item(text@) == Ok::<ItemDeclView, Seq<char>>(got@),
            Err(m) => parsed_item(text@) == Err::<ItemDeclView, Seq<char>>(m@),
        },
{
    syn::parse_str::<syn::Item>(text).map(|i| lower_item(&i)).map_err(|e| e.to_string())
}

/// `r` is what to emit for the item, or what the user is told.
pub open spec fn answers(r: Result<Plan, String>, item: ItemDeclView) -> bool {
    match refusal(item) {
        None => r matches Ok(plan) && plans(plan, item),
        Some(e) => r matches Err(m) && m@ == e.text(),
    }
}

/// What to emit for an item, or what the user is told.
pub fn answer(item: &ItemDecl) -> (r: Result<Plan, String>)
    ensures
        answers(r, item@),
{
    match expand(item) {
        Ok(plan) => Ok(plan),
        Err(e) => Err(e.message().to_owned()),
    }
}

/// What to emit for the item that `item` spells, or what the user is told.
pub fn wasm_zero(item: &str) -> (r: Result<Plan, String>)
    ensures
        match parsed_item(item@) {
            Ok(decl) => answers(r, decl),
            Err(e) => r matches Err(m) && m@ == e,
        },
{
    match parse_item(item) {
        Ok(decl) => answer(&decl),
        Err(e) => Err(e),
    }
}

// The annotation and the generator.

/// The metadata of a function can be recorded: the names hold no separator, and
/// each type is spelled in a way that gives it back.
pub open spec fn well_spelled(f: FnDeclView) -> bool {
    let pairs = input_pairs(f.inputs);
    &&& f.name.len() > 0
    &&& !f.name.contains(meta::FIELD_SEP)
    &&& !f.output->0.spelling.contains(meta::FIELD_SEP)
    &&& ty::spells(f.output->0.spelling, f.output->0.ty)
    &&& forall|i: int|
        0 <= i < pairs.len() ==> {
            &&& !(#[trigger] pairs[i]).0.contains(meta::FIELD_SEP)
            &&& !pairs[i].0.contains(meta::PAIR_SEP)
            &&& !pairs[i].1.contains(meta::FIELD_SEP)
            &&& ty::spells(pairs[i].1, input_ty(f.inputs[i]))
        }
    &&& meta::payload_of(
        meta::fn_fields(f.name, f.output->0.spelling, pairs),
    ).len() < 0x1_0000_0000
}

/// What the generator is to know of a function.
pub open spec fn as_recorded(f: FnDeclView) -> FnView {
    FnView {
        name: f.name,
        args: Seq::new(
            f.inputs.len(),
            |i: int| (input_pair(f.inputs[i], i).0, input_ty(f.inputs[i])),
        ),
        ret: f.output->0.ty,
    }
}

/// Both sides take the type for a single number, or neither does.
pub open spec fn sides_agree(ty: TyView) -> bool {
    is_direct_ty(ty) == expr::is_scalar_ty(ty)
}

/// A function that is annotated is what the generator finds in the binary: the
/// record that the annotation leaves is read back as the function's name,
/// arguments and result.
pub proof fn law_annotated_function_is_found(f: FnDeclView)
    requires
        fn_refusal(f) is None,
        well_spelled(f),
    ensures
        meta::records_of(fn_record(f)) == Ok::<Seq<RecordView>, Seq<char>>(
            seq![RecordView::Function(as_recorded(f))],
        ),
{
    let pairs = input_pairs(f.inputs);
    assert(meta::pairs_fit(pairs));
    meta::law_fn_record_is_read_back(f.name, f.output->0.spelling, pairs);
    assert(meta::typed_pairs(pairs) =~= as_recorded(f).args) by {
        assert forall|i: int| 0 <= i < pairs.len() implies meta::typed_pairs(pairs)[i]
            == as_recorded(f).args[i] by {
            assert(pairs[i] == input_pair(f.inputs[i], i));
        }
    }
}

/// The type has no reference on its outside.
pub open spec fn is_owned(ty: TyView) -> bool {
    ty::grouped(ty) == ty::bare(ty)
}

/// The annotation and the generator agree on which types cross the boundary as
/// a single number. Left out are references, which nothing can own across the
/// boundary, and a number with arguments behind its name, which is no type.
pub proof fn law_sides_agree(ty: TyView)
    requires
        is_owned(ty),
        ty::bare(ty) matches TyView::Path(segments) ==> expr::is_direct_name(
            ty::head(ty::bare(ty)),
        ) ==> segments.len() > 0 && no_path_args(segments.last().args),
    ensures
        sides_agree(ty),
{
    if !(ty::bare(ty) is Path) {
        lemma_no_name_is_no_number();
    }
}

proof fn lemma_no_name_is_no_number()
    ensures
        !expr::is_direct_name(Seq::<char>::empty()),
{
    reveal_strlit("i8");
    reveal_strlit("i16");
    reveal_strlit("i32");
    reveal_strlit("i64");
    reveal_strlit("u8");
    reveal_strlit("u16");
    reveal_strlit("u32");
    reveal_strlit("u64");
    reveal_strlit("f32");
    reveal_strlit("f64");
    reveal_strlit("usize");
    reveal_strlit("isize");
    reveal_strlit("bool");
    assert("i8"@.len() == 2 && "i16"@.len() == 3 && "i32"@.len() == 3 && "i64"@.len() == 3);
    assert("u8"@.len() == 2 && "u16"@.len() == 3 && "u32"@.len() == 3 && "u64"@.len() == 3);
    assert("f32"@.len() == 3 && "f64"@.len() == 3 && "usize"@.len() == 5);
    assert("isize"@.len() == 5 && "bool"@.len() == 4);
}

/// Where both sides agree on each type, the generated method calls the shim in
/// the shape that the shim has: it expects a plain result from a direct shim,
/// a code from any other and a buffer beside it unless the function returns
/// nothing, it hands over the arguments as they are to a
/// shim that takes them so, and it encodes them for a shim that decodes them,
/// one alone or several as a tuple.
pub proof fn law_method_fits_shim(f: FnDeclView)
    requires
        fn_refusal(f) is None,
        sides_agree(f.output->0.ty),
        forall|i: int| 0 <= i < f.inputs.len() ==> sides_agree(input_ty(#[trigger] f.inputs[i])),
    ensures
        ({
            let shape = shape_of(f.inputs, f.output->0.ty);
            let known = as_recorded(f);
            let names = "["@ + method::arg_names(known.args) + "]"@;
            &&& shape == Shim::Direct <==> method::is_direct(known)
            &&& method::is_quiet(known) ==> shape == Shim::OneArg || shape == Shim::ManyArgs
            &&& shape == Shim::NoArgs ==> method::arg_mode(known) == ("null"@, "null"@, "null"@)
            &&& shape == Shim::ScalarArgs ==> method::arg_mode(known) == ("null"@, "null"@, names)
            &&& shape == Shim::OneArg ==> method::arg_mode(known) == (
                "__argCodec_"@ + f.name,
                known.args[0].0,
                "null"@,
            ) && known.args.len() == 1
            &&& shape == Shim::ManyArgs ==> method::arg_mode(known) == (
                "__argCodec_"@ + f.name,
                names,
                "null"@,
            ) && known.args.len() > 1
        }),
{
    let known = as_recorded(f);
    assert(all_direct(f.inputs) == method::all_scalar(known.args)) by {
        assert forall|i: int| 0 <= i < f.inputs.len() implies is_direct_ty(
            input_ty(#[trigger] f.inputs[i]),
        ) == expr::is_scalar_ty(known.args[i].1) by {
            assert(sides_agree(input_ty(f.inputs[i])));
        }
        if all_direct(f.inputs) {
            assert forall|i: int| 0 <= i < known.args.len() implies expr::is_scalar_ty(
                (#[trigger] known.args[i]).1,
            ) by {
                assert(is_direct_ty(input_ty(f.inputs[i])));
            }
        }
        if method::all_scalar(known.args) {
            assert forall|i: int| 0 <= i < f.inputs.len() implies is_direct_ty(
                input_ty(#[trigger] f.inputs[i]),
            ) by {
                assert(expr::is_scalar_ty(known.args[i].1));
            }
        }
    }
}

/// The type crosses the boundary as it is, behind parentheses or not: its name is
/// that of a number of up to 64 bits or of the truth values, with no arguments.
pub open spec fn crosses(ty: TyView) -> bool {
    ty::grouped(ty) matches TyView::Path(segments) && segments.len() > 0
        && match segments.last().args {
        ArgsView::Bare => true,
        ArgsView::AngleBracketed(list) => list.len() == 0,
        ArgsView::Parenthesized => false,
    } && (segments.last().ident == "bool"@ || exists|family: numbers::Family, size: nat|
        size <= 8 && #[trigger] numbers::is_number(segments.last().ident, family, size))
}

/// The types decide on the shape of a shim: where the result crosses the boundary
/// as it is, or there is none, and all arguments do, nothing is encoded. Where only
/// the arguments do, they are taken as they are; else they are decoded, one alone
/// or several as a tuple.
pub proof fn law_types_decide_on_the_shape(f: FnDeclView)
    requires
        fn_refusal(f) is None,
    ensures
        ({
            let ret = f.output->0.ty;
            let all = forall|i: int|
                0 <= i < f.inputs.len() ==> crosses((#[trigger] f.inputs[i])->Typed_1.ty);
            let plain = ret == TyView::Tuple(Seq::<TyView>::empty()) || crosses(ret);
            shape_of(f.inputs, ret) == if plain && all {
                Shim::Direct
            } else if f.inputs.len() == 0 {
                Shim::NoArgs
            } else if all {
                Shim::ScalarArgs
            } else if f.inputs.len() == 1 {
                Shim::OneArg
            } else {
                Shim::ManyArgs
            }
        }),
{
    let ret = f.output->0.ty;
    let all = forall|i: int|
        0 <= i < f.inputs.len() ==> crosses((#[trigger] f.inputs[i])->Typed_1.ty);
    lemma_crosses(ret);
    assert forall|i: int| 0 <= i < f.inputs.len() implies crosses(
        (#[trigger] f.inputs[i])->Typed_1.ty,
    ) == is_direct_ty(input_ty(f.inputs[i])) by {
        lemma_crosses(f.inputs[i]->Typed_1.ty);
    }
    if all {
        assert forall|i: int| 0 <= i < f.inputs.len() implies is_direct_ty(
            input_ty(#[trigger] f.inputs[i]),
        ) by {
            assert(crosses(f.inputs[i]->Typed_1.ty));
        }
    }
    if all_direct(f.inputs) {
        assert forall|i: int| 0 <= i < f.inputs.len() implies crosses(
            (#[trigger] f.inputs[i])->Typed_1.ty,
        ) by {
            assert(is_direct_ty(input_ty(f.inputs[i])));
        }
    }
    if method::returns_unit(ret) {
        assert(ret->Tuple_0 =~= Seq::<TyView>::empty());
    }
}

proof fn lemma_crosses(ty: TyView)
    ensures
        crosses(ty) == is_direct_ty(ty),
{
    if let TyView::Path(segments) = ty::grouped(ty) {
        if segments.len() > 0 {
            numbers::law_numbers_cross_directly(segments.last().ident);
        }
    }
}

/// What can be annotated: functions with a result and without `self`, and structs
/// without generic parameters and with named fields. Everything else is refused,
/// for the first of these reasons that holds.
pub proof fn law_refusals(f: FnDeclView, s: StructDeclView)
    ensures
        refusal(ItemDeclView::Unsupported) == Some(Refusal::UnsupportedItem),
        f.output is None ==> refusal(ItemDeclView::Function(f)) == Some(Refusal::NoResult),
        f.output is Some && (exists|i: int|
            0 <= i < f.inputs.len() && (#[trigger] f.inputs[i]) is Receiver) ==> refusal(
            ItemDeclView::Function(f),
        ) == Some(Refusal::Method),
        f.output is Some && (forall|i: int|
            0 <= i < f.inputs.len() ==> !((#[trigger] f.inputs[i]) is Receiver)) ==> refusal(
            ItemDeclView::Function(f),
        ) is None,
        s.params > 0 ==> refusal(ItemDeclView::Struct(s)) == Some(Refusal::Generic),
        s.params == 0 && s.fields is None ==> refusal(ItemDeclView::Struct(s)) == Some(
            Refusal::UnnamedFields,
        ),
        s.params == 0 && s.fields is Some ==> refusal(ItemDeclView::Struct(s)) is None,
{
}

/// Every argument is recorded, in its place, under its name, or, where it has none,
/// under its index, with its type; every field under its name, with its type.
pub proof fn law_arguments_are_recorded(f: FnDeclView, s: StructDeclView)
    requires
        fn_refusal(f) is None,
        struct_refusal(s) is None,
    ensures
        ({
            let args = Seq::new(
                f.inputs.len(),
                |i: int|
                    (
                        match f.inputs[i]->Typed_0 {
                            Some(name) => name,
                            None => "arg"@ + text::decimal(i as nat),
                        },
                        f.inputs[i]->Typed_1.spelling,
                    ),
            );
            let fields = Seq::new(
                s.fields->0.len(),
                |i: int| (s.fields->0[i].0, s.fields->0[i].1.spelling),
            );
            &&& fn_record(f) == meta::record_bytes(
                meta::fn_fields(f.name, f.output->0.spelling, args),
            )
            &&& struct_record(s) == meta::record_bytes(meta::struct_fields(s.name, fields))
        }),
        as_recorded(f).name == f.name,
        as_recorded(f).ret == f.output->0.ty,
        as_recorded(f).args.len() == f.inputs.len(),
        forall|i: int|
            0 <= i < f.inputs.len() ==> {
                &&& (#[trigger] as_recorded(f).args[i]).1 == f.inputs[i]->Typed_1.ty
                &&& f.inputs[i]->Typed_0 matches Some(name) ==> as_recorded(f).args[i].0 == name
                &&& f.inputs[i]->Typed_0 is None ==> as_recorded(f).args[i].0 == "arg"@
                    + text::decimal(i as nat)
            },
{
    let args = Seq::new(
        f.inputs.len(),
        |i: int|
            (
                match f.inputs[i]->Typed_0 {
                    Some(name) => name,
                    None => "arg"@ + text::decimal(i as nat),
                },
                f.inputs[i]->Typed_1.spelling,
            ),
    );
    assert(input_pairs(f.inputs) =~= args);
    let fields = Seq::new(
        s.fields->0.len(),
        |i: int| (s.fields->0[i].0, s.fields->0[i].1.spelling),
    );
    assert(spellings(s.fields->0) =~= fields);
}

/// A shim hands its parameters on in order, whatever their number. One that takes
/// the arguments as they are declares one parameter for each, of its type, under
/// names that are all different, and hands the parameters on under these names in
/// the order in which it declares them. One that decodes its arguments hands on
/// the only one, or the elements of the tuple of all in their order.
#[verifier::rlimit(60)]
pub proof fn law_shim_hands_its_parameters_on(f: FnDeclView) -> (names: Seq<Seq<char>>)
    requires
        fn_refusal(f) is None,
    ensures
        names.len() == f.inputs.len(),
        forall|i: int, j: int|
            0 <= i < j < names.len() ==> #[trigger] names[i] != #[trigger] names[j],
        forall|i: int, k: int|
            0 <= i < names.len() && 0 <= k < names[i].len() ==> {
                let c = #[trigger] names[i][k];
                c == 'a' || '0' <= c <= '9'
            },
        ({
            let ret = f.output->0;
            let shape = shape_of(f.inputs, ret.ty);
            let start = SHIM@ + ("__wasm_zero_"@ + f.name) + "("@;
            let types = Seq::new(f.inputs.len(), |i: int| f.inputs[i]->Typed_1.spelling);
            let declared = text::join(
                Seq::new(f.inputs.len(), |i: int| names[i] + ": "@ + types[i]),
                ", "@,
            );
            let elements = Seq::new(
                f.inputs.len(),
                |i: int| "__args."@ + text::decimal(i as nat),
            );
            let tuple = "("@ + text::join(types, ", "@) + ")"@;
            let keep = "    let __result: "@ + ret.spelling + " = "@;
            shim_source(f, shape) == match shape {
                Shim::Direct => start + declared + ")"@ + text::when(
                    ret.ty != TyView::Tuple(Seq::<TyView>::empty()),
                    " -> "@ + ret.spelling,
                ) + " {\n    "@ + (f.name + "("@ + text::join(names, ", "@) + ")"@) + "\n}\n"@,
                Shim::ScalarArgs => start + (declared + ", "@) + SHIM_OUT@ + keep + (f.name + "("@
                    + text::join(names, ", "@) + ")"@) + ";\n"@ + SHIM_WRITE@,
                Shim::NoArgs => start + SHIM_OUT@ + keep + (f.name + "()"@) + ";\n"@ + SHIM_WRITE@,
                Shim::OneArg => start + "in_ptr: u32, "@ + SHIM_OUT@ + ("    let __arg: "@
                    + types[0] + SHIM_READ@ + types[0] + SHIM_READ_END@) + keep + (f.name
                    + "(__arg)"@) + ";\n"@ + SHIM_WRITE@,
                Shim::ManyArgs => start + "in_ptr: u32, "@ + SHIM_OUT@ + ("    let __args: "@
                    + tuple + SHIM_READ@ + tuple + SHIM_READ_END@) + keep + (f.name + "("@
                    + text::join(elements, ", "@) + ")"@) + ";\n"@ + SHIM_WRITE@,
            }
        }),
{
    let n = f.inputs.len();
    let ret = f.output->0;
    let shape = shape_of(f.inputs, ret.ty);
    let names = Seq::new(n, |i: int| "a"@ + text::decimal(i as nat));
    let start = SHIM@ + ("__wasm_zero_"@ + f.name) + "("@;
    let types = Seq::new(n, |i: int| f.inputs[i]->Typed_1.spelling);
    reveal_strlit("a");
    assert forall|i: int, j: int| 0 <= i < j < names.len() implies #[trigger] names[i]
        != #[trigger] names[j] by {
        text::law_decimal_spells_the_number(i as nat);
        text::law_decimal_spells_the_number(j as nat);
        assert(names[i].skip(1) =~= text::decimal(i as nat));
        assert(names[j].skip(1) =~= text::decimal(j as nat));
    }
    assert forall|i: int, k: int| 0 <= i < names.len() && 0 <= k < names[i].len() implies {
        let c = #[trigger] names[i][k];
        c == 'a' || '0' <= c <= '9'
    } by {
        text::law_decimal_spells_the_number(i as nat);
        if k > 0 {
            assert(names[i][k] == text::decimal(i as nat)[k - 1]);
        }
    }
    assert(numbered("a"@, n) =~= names);
    let elements = Seq::new(n, |i: int| "__args."@ + text::decimal(i as nat));
    assert(numbered("__args."@, n) =~= elements);
    assert(spelled_types(f.inputs) =~= types);
    let params = Seq::new(n, |i: int| names[i] + ": "@ + types[i]);
    assert(scalar_params(f.inputs) =~= params);
    if method::returns_unit(ret.ty) {
        assert(ret.ty->Tuple_0 =~= Seq::<TyView>::empty());
    }
    match shape {
        Shim::NoArgs => {
            assert(start + Seq::<char>::empty() =~= start);
            assert(start + SHIM_OUT@ + Seq::<char>::empty() =~= start + SHIM_OUT@);
            reveal_strlit("(");
            reveal_strlit(")");
            reveal_strlit("()");
            assert("("@ + ")"@ =~= "()"@);
            assert(f.name + "("@ + Seq::<char>::empty() + ")"@ =~= f.name + ("("@ + ")"@));
        },
        Shim::OneArg => {
            reveal_strlit("(");
            reveal_strlit(")");
            reveal_strlit("__arg");
            reveal_strlit("(__arg)");
            assert("("@ + "__arg"@ + ")"@ =~= "(__arg)"@);
            assert(f.name + "("@ + "__arg"@ + ")"@ =~= f.name + ("("@ + "__arg"@ + ")"@));
        },
        Shim::ScalarArgs => {
            assert(start + (text::join(params, ", "@) + ", "@) + SHIM_OUT@ + Seq::<char>::empty()
                =~= start + (text::join(params, ", "@) + ", "@) + SHIM_OUT@);
        },
        _ => {},
    }
    let keep = "    let __result: "@ + ret.spelling + " = "@;
    assert forall|before: Seq<char>| #[trigger]
        (before + "    let __result: "@) + ret.spelling + " = "@ == before + keep by {
        assert((before + "    let __result: "@) + ret.spelling + " = "@ =~= before + keep);
    }
    names
}

/// The static that holds a record holds its bytes, one by one and in their order,
/// and lies in the section that the generator reads.
pub proof fn law_static_holds_the_record(name: Seq<char>, record: Seq<u8>) -> (r: Seq<Seq<char>>)
    ensures
        r.len() == record.len(),
        forall|i: int|
            0 <= i < record.len() ==> text::spelled_number(#[trigger] r[i]) == record[i],
        meta_text(name, record) == META_START@ + "__wasm_zero"@ + META_STATIC@ + name + ": [u8; "@
            + text::decimal(record.len()) + "] = ["@ + text::join(r, ", "@) + "];\n"@,
{
    let r = byte_texts(record);
    assert forall|i: int| 0 <= i < record.len() implies text::spelled_number(#[trigger] r[i])
        == record[i] by {
        text::law_decimal_spells_the_number(record[i] as nat);
    }
    r
}

/// The metadata of an item can be recorded.
pub open spec fn item_well_spelled(item: ItemDeclView) -> bool {
    match item {
        ItemDeclView::Function(f) => well_spelled(f),
        ItemDeclView::Struct(s) => {
            &&& s.name.len() > 0
            &&& !s.name.contains(meta::FIELD_SEP)
            &&& forall|i: int|
                0 <= i < s.fields->0.len() ==> {
                    &&& !(#[trigger] s.fields->0[i]).0.contains(meta::FIELD_SEP)
                    &&& !s.fields->0[i].0.contains(meta::PAIR_SEP)
                    &&& !s.fields->0[i].1.spelling.contains(meta::FIELD_SEP)
                    &&& ty::spells(s.fields->0[i].1.spelling, s.fields->0[i].1.ty)
                }
            &&& meta::payload_of(
                meta::struct_fields(s.name, spellings(s.fields->0)),
            ).len() < 0x1_0000_0000
        },
        ItemDeclView::Unsupported => false,
    }
}

/// The metadata record of an item.
pub open spec fn item_record(item: ItemDeclView) -> Seq<u8> {
    match item {
        ItemDeclView::Function(f) => fn_record(f),
        ItemDeclView::Struct(s) => struct_record(s),
        ItemDeclView::Unsupported => Seq::empty(),
    }
}

/// What the generator is to know of an item.
pub open spec fn item_as_recorded(item: ItemDeclView) -> RecordView {
    match item {
        ItemDeclView::Struct(s) => RecordView::Struct(
            StructView { name: s.name, fields: field_trees(s.fields->0) },
        ),
        ItemDeclView::Function(f) => RecordView::Function(as_recorded(f)),
        ItemDeclView::Unsupported => arbitrary(),
    }
}

/// The records of the items, one after the other.
pub open spec fn records_together(items: Seq<ItemDeclView>) -> Seq<u8>
    decreases items.len(),
{
    if items.len() == 0 {
        Seq::empty()
    } else {
        records_together(items.drop_last()) + item_record(items.last())
    }
}

/// What the annotation leaves of each item, one record after the other in the
/// metadata of a binary, is what the generator finds there.
pub proof fn law_annotated_items_are_described(items: Seq<ItemDeclView>, binary: Seq<u8>)
    requires
        items.len() > 0,
        forall|i: int|
            0 <= i < items.len() ==> refusal(#[trigger] items[i]) is None && item_well_spelled(
                items[i],
            ),
        wasm::extracted(binary) == Ok::<Seq<u8>, Seq<char>>(records_together(items)),
    ensures
        bindings::described(binary) == Ok::<MetaView, Seq<char>>(
            meta::collected(items.map_values(|i: ItemDeclView| item_as_recorded(i))),
        ),
{
    lemma_records_together(items);
    lemma_record_not_empty(items.last());
}

/// What is annotated reaches the generator: where a linker puts the records of the
/// items, however many there are, into a metadata section of a binary, the generator
/// finds the items in the binary, and nothing is left of them in the stripped one.
pub proof fn law_annotated_items_reach_the_generator(
    items: Seq<ItemDeclView>,
    header: Seq<u8>,
    k: nat,
    j: nat,
)
    requires
        items.len() > 0,
        forall|i: int|
            0 <= i < items.len() ==> refusal(#[trigger] items[i]) is None && item_well_spelled(
                items[i],
            ),
        wasm::is_header(header),
        wasm::leb_holds(11, j),
        wasm::leb_holds(j + 11 + records_together(items).len(), k),
    ensures
        ({
            let name = encode_utf8("__wasm_zero"@);
            let content = wasm::custom_content(j, name, records_together(items));
            let binary = header + wasm::section_bytes(0, k, content);
            &&& bindings::described(binary) == Ok::<MetaView, Seq<char>>(
                meta::collected(items.map_values(|i: ItemDeclView| item_as_recorded(i))),
            )
            &&& wasm::stripped(binary) == Ok::<Seq<u8>, Seq<char>>(header)
        }),
{
    let none = Seq::<u8>::empty();
    let name = encode_utf8("__wasm_zero"@);
    let data = records_together(items);
    let section = wasm::section_bytes(0, k, wasm::custom_content(j, name, data));
    let binary = header + section;
    wasm::law_header_alone(header, none);
    assert(header + none =~= header);
    assert(header + none + none =~= header);
    wasm::law_metadata_is_found(header, none, k, j, data, none);
    assert(header + none + section + none =~= binary);
    assert(none + data + none =~= data);
    law_annotated_items_are_described(items, binary);
}

proof fn lemma_record_not_empty(item: ItemDeclView)
    requires
        item_well_spelled(item),
    ensures
        item_record(item).len() > 0,
{
}

proof fn lemma_records_together(items: Seq<ItemDeclView>)
    requires
        forall|i: int|
            0 <= i < items.len() ==> refusal(#[trigger] items[i]) is None && item_well_spelled(
                items[i],
            ),
    ensures
        meta::records_of(records_together(items)) == Ok::<Seq<RecordView>, Seq<char>>(
            items.map_values(|i: ItemDeclView| item_as_recorded(i)),
        ),
    decreases items.len(),
{
    let views = items.map_values(|i: ItemDeclView| item_as_recorded(i));
    if items.len() == 0 {
        assert(views =~= Seq::empty());
    } else {
        let front = items.drop_last();
        let last = items[items.len() - 1];
        assert forall|i: int| 0 <= i < front.len() implies refusal(#[trigger] front[i]) is None
            && item_well_spelled(front[i]) by {
            assert(front[i] == items[i]);
        }
        lemma_records_together(front);
        match last {
            ItemDeclView::Function(f) => law_annotated_function_is_found(f),
            ItemDeclView::Struct(s) => {
                let pairs = spellings(s.fields->0);
                assert forall|i: int| 0 <= i < pairs.len() implies {
                    &&& !(#[trigger] pairs[i]).0.contains(meta::FIELD_SEP)
                    &&& !pairs[i].0.contains(meta::PAIR_SEP)
                    &&& !pairs[i].1.contains(meta::FIELD_SEP)
                    &&& ty::spells(pairs[i].1, s.fields->0[i].1.ty)
                } by {
                    assert(pairs[i] == (s.fields->0[i].0, s.fields->0[i].1.spelling));
                }
                assert(meta::pairs_fit(pairs));
                assert(meta::typed_pairs(pairs) =~= field_trees(s.fields->0));
                meta::law_struct_record_is_read_back(s.name, pairs);
            },
            ItemDeclView::Unsupported => {},
        }
        meta::law_records_concatenate(records_together(front), item_record(last));
        assert(views =~= front.map_values(|i: ItemDeclView| item_as_recorded(i)) + seq![
            item_as_recorded(last),
        ]);
    }
}

} // verus!
