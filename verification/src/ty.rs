//! Rust types, as far as the generator looks into them.
use vstd::prelude::*;

verus! {

/// A parsed Rust type.
#[derive(Debug)]
pub enum Ty {
    /// A path such as `alloc::vec::Vec<u8>`.
    Path(Vec<TySegment>),
    /// `&T` or `&mut T`.
    Reference(Box<Ty>),
    /// `(T)`.
    Paren(Box<Ty>),
    /// A type in invisible delimiters.
    Group(Box<Ty>),
    /// `(A, B, ..)`; without types it is the unit type.
    Tuple(Vec<Ty>),
    /// `[T; N]`, where the length is written as a number.
    Array(Box<Ty>, u64),
    /// Any other type.
    Other,
}

/// One segment of a path.
#[derive(Debug)]
pub struct TySegment {
    pub ident: String,
    pub args: PathArgs,
}

/// What follows the name in a path segment.
#[derive(Debug)]
pub enum PathArgs {
    /// Nothing.
    Bare,
    /// `<..>`.
    AngleBracketed(Vec<GenericArg>),
    /// `(..) -> ..`.
    Parenthesized,
}

/// One argument between angle brackets.
#[derive(Debug)]
pub enum GenericArg {
    Type(Ty),
    /// A lifetime, a constant, an associated type or a bound.
    Other,
}

/// The view of a [`Ty`].
pub enum TyView {
    Path(Seq<SegmentView>),
    Reference(Box<TyView>),
    Paren(Box<TyView>),
    Group(Box<TyView>),
    Tuple(Seq<TyView>),
    Array(Box<TyView>, nat),
    Other,
}

/// The view of a [`TySegment`].
pub struct SegmentView {
    pub ident: Seq<char>,
    pub args: ArgsView,
}

/// The view of a [`PathArgs`].
pub enum ArgsView {
    Bare,
    AngleBracketed(Seq<GenericView>),
    Parenthesized,
}

/// The view of a [`GenericArg`].
pub enum GenericView {
    Type(TyView),
    Other,
}

pub open spec fn ty_view(ty: Ty) -> TyView
    decreases ty,
{
    match ty {
        Ty::Path(segments) => TyView::Path(
            Seq::new(
                segments@.len(),
                |i: int|
                    if 0 <= i < segments@.len() {
                        segment_view(segments@[i])
                    } else {
                        arbitrary()
                    },
            ),
        ),
        Ty::Reference(t) => TyView::Reference(Box::new(ty_view(*t))),
        Ty::Paren(t) => TyView::Paren(Box::new(ty_view(*t))),
        Ty::Group(t) => TyView::Group(Box::new(ty_view(*t))),
        Ty::Tuple(types) => TyView::Tuple(
            Seq::new(
                types@.len(),
                |i: int|
                    if 0 <= i < types@.len() {
                        ty_view(types@[i])
                    } else {
                        arbitrary()
                    },
            ),
        ),
        Ty::Array(t, n) => TyView::Array(Box::new(ty_view(*t)), n as nat),
        Ty::Other => TyView::Other,
    }
}

pub open spec fn segment_view(segment: TySegment) -> SegmentView
    decreases segment,
{
    SegmentView {
        ident: segment.ident@,
        args: match segment.args {
            PathArgs::Bare => ArgsView::Bare,
            PathArgs::AngleBracketed(args) => ArgsView::AngleBracketed(
                Seq::new(
                    args@.len(),
                    |i: int|
                        if 0 <= i < args@.len() {
                            generic_view(args@[i])
                        } else {
                            arbitrary()
                        },
                ),
            ),
            PathArgs::Parenthesized => ArgsView::Parenthesized,
        },
    }
}

pub open spec fn generic_view(arg: GenericArg) -> GenericView
    decreases arg,
{
    match arg {
        GenericArg::Type(t) => GenericView::Type(ty_view(t)),
        GenericArg::Other => GenericView::Other,
    }
}

impl View for Ty {
    type V = TyView;

    open spec fn view(&self) -> TyView {
        ty_view(*self)
    }
}

/// `ty` behind references, parentheses and invisible delimiters.
pub open spec fn bare(ty: TyView) -> TyView
    decreases ty,
{
    match ty {
        TyView::Reference(t) => bare(*t),
        TyView::Paren(t) => bare(*t),
        TyView::Group(t) => bare(*t),
        other => other,
    }
}

/// `ty` behind parentheses and invisible delimiters.
pub open spec fn grouped(ty: TyView) -> TyView
    decreases ty,
{
    match ty {
        TyView::Paren(t) => grouped(*t),
        TyView::Group(t) => grouped(*t),
        other => other,
    }
}

/// The types among the arguments between angle brackets.
pub open spec fn types_of(args: Seq<GenericView>) -> Seq<TyView>
    decreases args.len(),
{
    if args.len() == 0 {
        Seq::empty()
    } else {
        let before = types_of(args.drop_last());
        match args.last() {
            GenericView::Type(t) => before.push(t),
            GenericView::Other => before,
        }
    }
}

/// The name in the last segment of a path; nothing, if `ty` is no path.
pub open spec fn head(ty: TyView) -> Seq<char> {
    match ty {
        TyView::Path(segments) if segments.len() > 0 => segments.last().ident,
        _ => Seq::empty(),
    }
}

/// The type arguments of the last segment of a path.
pub open spec fn type_args(ty: TyView) -> Seq<TyView> {
    match ty {
        TyView::Path(segments) if segments.len() > 0 => match segments.last().args {
            ArgsView::AngleBracketed(args) => types_of(args),
            _ => Seq::empty(),
        },
        _ => Seq::empty(),
    }
}

proof fn lemma_types_of(args: Seq<GenericView>, i: int)
    requires
        0 <= i < types_of(args).len(),
    ensures
        exists|j: int| 0 <= j < args.len() && args[j] == GenericView::Type(types_of(args)[i]),
    decreases args.len(),
{
    let before = types_of(args.drop_last());
    if i < before.len() {
        lemma_types_of(args.drop_last(), i);
        let j = choose|j: int|
            0 <= j < args.len() - 1 && args.drop_last()[j] == GenericView::Type(before[i]);
        assert(args[j] == GenericView::Type(types_of(args)[i]));
    } else {
        assert(args[args.len() - 1] == GenericView::Type(types_of(args)[i]));
    }
}

/// The type arguments of what is behind the references of `ty` are smaller
/// than `ty`.
pub proof fn lemma_type_args_smaller(ty: TyView, i: int)
    requires
        0 <= i < type_args(bare(ty)).len(),
    ensures
        decreases_to!(ty => type_args(bare(ty))[i]),
    decreases ty,
{
    match ty {
        TyView::Reference(t) => {
            lemma_type_args_smaller(*t, i);
        },
        TyView::Paren(t) => {
            lemma_type_args_smaller(*t, i);
        },
        TyView::Group(t) => {
            lemma_type_args_smaller(*t, i);
        },
        TyView::Path(segments) => {
            let segment = segments[segments.len() - 1];
            let args = segment.args->AngleBracketed_0;
            lemma_types_of(args, i);
            let j = choose|j: int|
                0 <= j < args.len() && args[j] == GenericView::Type(types_of(args)[i]);
            assert(decreases_to!(ty => segments));
            assert(decreases_to!(segments => segments[segments.len() - 1]));
            assert(decreases_to!(segment => segment.args));
            assert(decreases_to!(segment.args => args));
            assert(decreases_to!(args => args[j]));
            assert(decreases_to!(args[j] => args[j]->Type_0));
        },
        _ => {},
    }
}

/// References, parentheses and invisible delimiters round a type change nothing
/// of what is behind them, however many there are; parentheses and invisible
/// delimiters change nothing of what is behind these alone.
pub proof fn law_wrappings_are_looked_through(ty: TyView)
    ensures
        bare(TyView::Reference(Box::new(ty))) == bare(ty),
        bare(TyView::Paren(Box::new(ty))) == bare(ty),
        bare(TyView::Group(Box::new(ty))) == bare(ty),
        grouped(TyView::Paren(Box::new(ty))) == grouped(ty),
        grouped(TyView::Group(Box::new(ty))) == grouped(ty),
        !(ty is Reference) && !(ty is Paren) && !(ty is Group) ==> bare(ty) == ty && grouped(ty)
            == ty,
        ty is Reference ==> grouped(ty) == ty,
        tuple_types(TyView::Reference(Box::new(ty))) == tuple_types(ty),
        tuple_types(TyView::Paren(Box::new(ty))) == tuple_types(ty),
        tuple_types(TyView::Group(Box::new(ty))) == tuple_types(ty),
        ty matches TyView::Tuple(types) ==> tuple_types(ty) == types,
        !(bare(ty) is Tuple) ==> tuple_types(ty).len() == 0,
{
}

/// A path is known by the name in its last segment and the types between its
/// angle brackets, in their order; what else stands there does not count.
pub proof fn law_last_segment_counts(
    segments: Seq<SegmentView>,
    ident: Seq<char>,
    list: Seq<GenericView>,
    t: TyView,
)
    ensures
        head(TyView::Path(segments.push(SegmentView { ident, args: ArgsView::Bare }))) == ident,
        head(
            TyView::Path(
                segments.push(SegmentView { ident, args: ArgsView::AngleBracketed(list) }),
            ),
        ) == ident,
        type_args(
            TyView::Path(segments.push(SegmentView { ident, args: ArgsView::Bare })),
        ).len() == 0,
        type_args(
            TyView::Path(segments.push(SegmentView { ident, args: ArgsView::Parenthesized })),
        ).len() == 0,
        type_args(
            TyView::Path(
                segments.push(
                    SegmentView {
                        ident,
                        args: ArgsView::AngleBracketed(list.push(GenericView::Type(t))),
                    },
                ),
            ),
        ) == type_args(
            TyView::Path(
                segments.push(SegmentView { ident, args: ArgsView::AngleBracketed(list) }),
            ),
        ).push(t),
        type_args(
            TyView::Path(
                segments.push(
                    SegmentView {
                        ident,
                        args: ArgsView::AngleBracketed(list.push(GenericView::Other)),
                    },
                ),
            ),
        ) == type_args(
            TyView::Path(
                segments.push(SegmentView { ident, args: ArgsView::AngleBracketed(list) }),
            ),
        ),
        type_args(
            TyView::Path(
                segments.push(
                    SegmentView {
                        ident,
                        args: ArgsView::AngleBracketed(Seq::<GenericView>::empty()),
                    },
                ),
            ),
        ).len() == 0,
{
    let with = list.push(GenericView::Type(t));
    let other = list.push(GenericView::Other);
    assert(with.drop_last() =~= list);
    assert(other.drop_last() =~= list);
}

/// The view of a segment has its name and its arguments, one by one.
pub open spec fn is_view_of(view: SegmentView, segment: TySegment) -> bool {
    &&& view.ident == segment.ident@
    &&& match segment.args {
        PathArgs::Bare => view.args is Bare,
        PathArgs::Parenthesized => view.args is Parenthesized,
        PathArgs::AngleBracketed(args) => view.args matches ArgsView::AngleBracketed(got)
            && got.len() == args@.len() && forall|k: int|
            0 <= k < got.len() ==> match #[trigger] args@[k] {
                GenericArg::Type(a) => got[k] == GenericView::Type(a@),
                GenericArg::Other => got[k] is Other,
            },
    }
}

/// The view of a type is its tree, part by part.
pub proof fn law_view_is_the_tree(t: Ty, types: Vec<Ty>, segments: Vec<TySegment>, n: u64)
    ensures
        Ty::Reference(Box::new(t))@ == TyView::Reference(Box::new(t@)),
        Ty::Paren(Box::new(t))@ == TyView::Paren(Box::new(t@)),
        Ty::Group(Box::new(t))@ == TyView::Group(Box::new(t@)),
        Ty::Array(Box::new(t), n)@ == TyView::Array(Box::new(t@), n as nat),
        Ty::Tuple(types)@ matches TyView::Tuple(views) && views.len() == types@.len() && forall|
            i: int,
        |
            0 <= i < views.len() ==> views[i] == (#[trigger] types@[i])@,
        Ty::Path(segments)@ matches TyView::Path(views) && views.len() == segments@.len() && forall|
            i: int,
        |
            0 <= i < views.len() ==> is_view_of(views[i], #[trigger] segments@[i]),
        Ty::Other@ is Other,
{
    let views = Ty::Path(segments)@->Path_0;
    assert forall|i: int| 0 <= i < views.len() implies is_view_of(
        views[i],
        #[trigger] segments@[i],
    ) by {
        let segment = segments@[i];
        assert(views[i] == segment_view(segment));
        if let PathArgs::AngleBracketed(args) = segment.args {
            let got = views[i].args->AngleBracketed_0;
            assert forall|k: int| 0 <= k < got.len() implies match #[trigger] args@[k] {
                GenericArg::Type(a) => got[k] == GenericView::Type(a@),
                GenericArg::Other => got[k] is Other,
            } by {
                assert(got[k] == generic_view(args@[k]));
            }
        }
    }
}

/// The types that a tuple behind the references of `ty` consists of.
pub open spec fn tuple_types(ty: TyView) -> Seq<TyView> {
    match bare(ty) {
        TyView::Tuple(types) => types,
        _ => Seq::empty(),
    }
}

/// The types that a tuple or an array behind the references of `ty` consists of
/// are smaller than `ty`.
pub proof fn lemma_parts_smaller(ty: TyView)
    ensures
        tuple_types(ty).len() > 0 ==> decreases_to!(ty => tuple_types(ty)),
        bare(ty) matches TyView::Array(t, _) ==> decreases_to!(ty => *t),
    decreases ty,
{
    match ty {
        TyView::Reference(t) => {
            lemma_parts_smaller(*t);
        },
        TyView::Paren(t) => {
            lemma_parts_smaller(*t);
        },
        TyView::Group(t) => {
            lemma_parts_smaller(*t);
        },
        _ => {},
    }
}

/// `ty` behind references, parentheses and invisible delimiters.
pub fn unref(ty: &Ty) -> (r: &Ty)
    ensures
        r@ == bare(ty@),
    decreases *ty,
{
    match ty {
        Ty::Reference(t) => unref(t),
        Ty::Paren(t) => unref(t),
        Ty::Group(t) => unref(t),
        other => other,
    }
}

/// `ty` behind parentheses and invisible delimiters.
pub fn ungroup(ty: &Ty) -> (r: &Ty)
    ensures
        r@ == grouped(ty@),
    decreases *ty,
{
    match ty {
        Ty::Paren(t) => ungroup(t),
        Ty::Group(t) => ungroup(t),
        other => other,
    }
}

/// The views of a list of types.
pub open spec fn vec_views(types: Seq<Ty>) -> Seq<TyView> {
    types.map_values(|t: Ty| t@)
}

/// The views of a list of borrowed types.
pub open spec fn ty_views(types: Seq<&Ty>) -> Seq<TyView> {
    types.map_values(|t: &Ty| t@)
}

/// The types of a list, borrowed.
pub fn borrowed(types: &Vec<Ty>) -> (r: Vec<&Ty>)
    ensures
        ty_views(r@) == vec_views(types@),
{
    let mut out: Vec<&Ty> = Vec::new();
    let mut i: usize = 0;
    assert(ty_views(out@) =~= vec_views(types@).take(0));
    while i < types.len()
        invariant
            i <= types@.len(),
            ty_views(out@) == vec_views(types@).take(i as int),
        decreases types@.len() - i,
    {
        let ghost before = ty_views(out@);
        out.push(&types[i]);
        assert(ty_views(out@) =~= before.push(types@[i as int]@));
        assert(ty_views(out@) =~= vec_views(types@).take(i + 1));
        i = i + 1;
    }
    assert(vec_views(types@).take(i as int) =~= vec_views(types@));
    out
}

/// The name in the last segment of a path and its type arguments.
pub fn path_parts(ty: &Ty) -> (r: (&str, Vec<&Ty>))
    ensures
        r.0@ == head(ty@),
        ty_views(r.1@) == type_args(ty@),
{
    let mut types: Vec<&Ty> = Vec::new();
    assert(ty_views(types@) =~= Seq::empty());
    if let Ty::Path(segments) = ty {
        if segments.len() > 0 {
            let segment = &segments[segments.len() - 1];
            assert(ty@->Path_0.last() == segment_view(*segment));
            if let PathArgs::AngleBracketed(args) = &segment.args {
                let ghost views = segment_view(*segment).args->AngleBracketed_0;
                let mut i: usize = 0;
                assert(views.take(0) =~= Seq::empty());
                while i < args.len()
                    invariant
                        i <= args@.len() == views.len(),
                        forall|j: int| 0 <= j < args@.len() ==> views[j] == generic_view(args@[j]),
                        ty_views(types@) == types_of(views.take(i as int)),
                    decreases args@.len() - i,
                {
                    assert(views.take(i + 1).drop_last() =~= views.take(i as int));
                    assert(views.take(i + 1).last() == generic_view(args@[i as int]));
                    if let GenericArg::Type(t) = &args[i] {
                        let ghost before = ty_views(types@);
                        types.push(t);
                        assert(ty_views(types@) =~= before.push(t@));
                    }
                    i = i + 1;
                }
                assert(views.take(i as int) =~= views);
            }
            return (segment.ident.as_str(), types);
        }
    }
    proof {
        reveal_strlit("");
        assert(""@ =~= Seq::empty());
    }
    ("", types)
}

/// A type in the syntax tree of `syn`. Nothing is known of its inside.
#[verifier::external_type_specification]
#[verifier::external_body]
pub struct ExType(syn::Type);

/// A path segment in the syntax tree of `syn`.
#[verifier::external_type_specification]
#[verifier::external_body]
pub struct ExPathSegment(syn::PathSegment);

/// An argument between angle brackets in the syntax tree of `syn`.
#[verifier::external_type_specification]
#[verifier::external_body]
pub struct ExGenericArgument(syn::GenericArgument);

/// An array type in the syntax tree of `syn`.
#[verifier::external_type_specification]
#[verifier::external_body]
pub struct ExTypeArray(syn::TypeArray);

/// The syntax tree that `syn::parse_str::<syn::Type>` makes of a text, or what
/// it says of a text that is no type.
pub uninterp spec fn parsed_type(text: Seq<char>) -> Result<TyView, Seq<char>>;

/// `text` is a spelling of `ty`.
pub open spec fn spells(text: Seq<char>, ty: TyView) -> bool {
    parsed_type(text) == Ok::<TyView, Seq<char>>(ty)
}

/// Copies a type out of the syntax tree of `syn`, variant for variant. Claims
/// nothing of the result: the functions that parse do.
#[verifier::external_body]
pub(crate) fn lower(ty: &syn::Type) -> Ty {
    match ty {
        syn::Type::Path(p) => Ty::Path(p.path.segments.iter().map(lower_segment).collect()),
        syn::Type::Reference(r) => Ty::Reference(Box::new(lower(&r.elem))),
        syn::Type::Paren(p) => Ty::Paren(Box::new(lower(&p.elem))),
        syn::Type::Group(g) => Ty::Group(Box::new(lower(&g.elem))),
        syn::Type::Tuple(t) => Ty::Tuple(t.elems.iter().map(lower).collect()),
        syn::Type::Array(a) => lower_array(a),
        _ => Ty::Other,
    }
}

/// Copies an array type out of the syntax tree of `syn`, if its length is nothing
/// but an integer. Claims nothing of the result: the functions that parse do.
#[verifier::external_body]
fn lower_array(array: &syn::TypeArray) -> Ty {
    let len = match &array.len {
        syn::Expr::Lit(syn::ExprLit { lit: syn::Lit::Int(n), .. }) => n.base10_parse().ok(),
        _ => None,
    };
    match len {
        Some(n) => Ty::Array(Box::new(lower(&array.elem)), n),
        None => Ty::Other,
    }
}

/// Copies a path segment out of the syntax tree of `syn`. Claims nothing of
/// the result: the functions that parse do.
#[verifier::external_body]
fn lower_segment(segment: &syn::PathSegment) -> TySegment {
    let args = match &segment.arguments {
        syn::PathArguments::None => PathArgs::Bare,
        syn::PathArguments::AngleBracketed(a) => {
            PathArgs::AngleBracketed(a.args.iter().map(lower_arg).collect())
        },
        syn::PathArguments::Parenthesized(_) => PathArgs::Parenthesized,
    };
    TySegment { ident: segment.ident.to_string(), args }
}

/// Copies a generic argument out of the syntax tree of `syn`. Claims nothing
/// of the result: the functions that parse do.
#[verifier::external_body]
fn lower_arg(arg: &syn::GenericArgument) -> GenericArg {
    match arg {
        syn::GenericArgument::Type(t) => GenericArg::Type(lower(t)),
        _ => GenericArg::Other,
    }
}

/// Calls `syn::parse_str::<syn::Type>`, which parses the whole of `text` as a
/// Rust type. `proc_macro2`, which makes the tokens, is built with its own lexer
/// alone, so that the syntax tree, and what is said of a text that is no type,
/// depend on nothing but `text`. Claims only that: what comes back has the name
/// [`parsed_type`].
#[verifier::external_body]
pub(crate) fn parse_type(text: &str) -> (r: Result<Ty, String>)
    ensures
        match r {
            Ok(got) => parsed_type(text@) == Ok::<TyView, Seq<char>>(got@),
            Err(m) => parsed_type(text@) == Err::<TyView, Seq<char>>(m@),
        },
{
    syn::parse_str::<syn::Type>(text).map(|t| lower(&t)).map_err(|e| e.to_string())
}

} // verus!
