//! Metadata records: what the annotation leaves in the binary of each function
//! and struct, and how it is read back.
//!
//! A record is the length of its payload, four bytes, least significant first,
//! and the payload, UTF-8 text. The payload is a list of fields with
//! [`FIELD_SEP`] between them: the version, the kind of item, its name and what
//! depends on the kind. A field that pairs a name with a type has [`PAIR_SEP`]
//! between the two. Records follow each other without anything between them.
use crate::order;
use crate::text;
use crate::ty;
use crate::ty::Ty;
use crate::ty::TyView;
use crate::wasm;
use vstd::prelude::*;
use vstd::slice::slice_subrange;
use vstd::utf8::*;

verus! {

/// Version of the record format.
pub const META_VERSION: &'static str = "1";

/// Separates the fields of a record.
pub const FIELD_SEP: char = '\u{1f}';

/// Separates the name from the type in a field that holds both.
pub const PAIR_SEP: char = '\u{1e}';

/// An annotated function.
#[derive(Debug)]
pub struct FnMeta {
    pub name: String,
    pub args: Vec<(String, Ty)>,
    pub ret: Ty,
}

/// An annotated struct.
#[derive(Debug)]
pub struct StructMeta {
    pub name: String,
    pub fields: Vec<(String, Ty)>,
}

/// All that is recorded in a binary.
#[derive(Debug)]
pub struct Metadata {
    /// Ordered by name, no name twice.
    pub structs: Vec<StructMeta>,
    /// Ordered by name.
    pub funcs: Vec<FnMeta>,
}

impl Metadata {
    /// What is recorded is ordered by name, and no struct name stands twice.
    pub open spec fn wf(self) -> bool {
        order::structs_ordered(self@.structs) && order::fns_ordered(self@.funcs)
    }
}

/// One record.
#[derive(Debug)]
pub enum Record {
    Function(FnMeta),
    Struct(StructMeta),
}

/// A name and a type.
pub type FieldView = (Seq<char>, TyView);

/// The view of an [`FnMeta`].
pub struct FnView {
    pub name: Seq<char>,
    pub args: Seq<FieldView>,
    pub ret: TyView,
}

/// The view of a [`StructMeta`].
pub struct StructView {
    pub name: Seq<char>,
    pub fields: Seq<FieldView>,
}

/// The view of a [`Metadata`].
pub struct MetaView {
    pub structs: Seq<StructView>,
    pub funcs: Seq<FnView>,
}

/// The view of a [`Record`].
pub enum RecordView {
    Function(FnView),
    Struct(StructView),
}

/// The views of a list of named types.
pub open spec fn field_views(fields: Seq<(String, Ty)>) -> Seq<FieldView> {
    fields.map_values(|f: (String, Ty)| (f.0@, f.1@))
}

/// The views of a list of structs.
pub open spec fn struct_views(structs: Seq<StructMeta>) -> Seq<StructView> {
    structs.map_values(|s: StructMeta| s@)
}

/// The views of a list of functions.
pub open spec fn fn_views(funcs: Seq<FnMeta>) -> Seq<FnView> {
    funcs.map_values(|f: FnMeta| f@)
}

impl View for FnMeta {
    type V = FnView;

    open spec fn view(&self) -> FnView {
        FnView { name: self.name@, args: field_views(self.args@), ret: self.ret@ }
    }
}

impl View for StructMeta {
    type V = StructView;

    open spec fn view(&self) -> StructView {
        StructView { name: self.name@, fields: field_views(self.fields@) }
    }
}

impl View for Metadata {
    type V = MetaView;

    open spec fn view(&self) -> MetaView {
        MetaView { structs: struct_views(self.structs@), funcs: fn_views(self.funcs@) }
    }
}

impl View for Record {
    type V = RecordView;

    open spec fn view(&self) -> RecordView {
        match self {
            Record::Function(f) => RecordView::Function(f@),
            Record::Struct(s) => RecordView::Struct(s@),
        }
    }
}

/// The number in four bytes, least significant first.
pub open spec fn le32(b: Seq<u8>) -> nat {
    (b[0] + 0x100 * b[1] + 0x1_0000 * b[2] + 0x100_0000 * b[3]) as nat
}

/// The four bytes of a number, least significant first.
pub open spec fn le32_bytes(n: nat) -> Seq<u8> {
    seq![
        (n % 0x100) as u8,
        (n / 0x100 % 0x100) as u8,
        (n / 0x1_0000 % 0x100) as u8,
        (n / 0x100_0000 % 0x100) as u8,
    ]
}

/// The type that `text` spells.
pub open spec fn ty_of(text: Seq<char>) -> Result<TyView, Seq<char>> {
    match ty::parsed_type(text) {
        Ok(ty) => Ok(ty),
        Err(e) => Err("bad type `"@ + text + "` in metadata: "@ + e),
    }
}

/// The name and the type that a field holds.
pub open spec fn pair_of(text: Seq<char>) -> Result<FieldView, Seq<char>> {
    let at = text::first_at(text, PAIR_SEP) as int;
    if at == text.len() {
        Err("malformed name/type pair `"@ + text + "` in metadata"@)
    } else {
        match ty_of(text.skip(at + 1)) {
            Ok(ty) => Ok((text.take(at), ty)),
            Err(e) => Err(e),
        }
    }
}

/// The names and types that the fields hold, or the first error among them.
pub open spec fn pairs_of(fields: Seq<Seq<char>>) -> Result<Seq<FieldView>, Seq<char>>
    decreases fields.len(),
{
    if fields.len() == 0 {
        Ok(Seq::empty())
    } else {
        match pairs_of(fields.drop_last()) {
            Err(e) => Err(e),
            Ok(before) => match pair_of(fields.last()) {
                Err(e) => Err(e),
                Ok(last) => Ok(before.push(last)),
            },
        }
    }
}

/// The function that the fields of a record describe.
pub open spec fn fn_of(fields: Seq<Seq<char>>) -> Result<FnView, Seq<char>> {
    if fields.len() < 4 {
        Err("metadata for fn `"@ + fields[2] + "` missing return type"@)
    } else {
        match ty_of(fields[3]) {
            Err(e) => Err(e),
            Ok(ret) => match pairs_of(fields.skip(4)) {
                Err(e) => Err(e),
                Ok(args) => Ok(FnView { name: fields[2], args, ret }),
            },
        }
    }
}

/// The struct that the fields of a record describe.
pub open spec fn struct_of(fields: Seq<Seq<char>>) -> Result<StructView, Seq<char>> {
    match pairs_of(fields.skip(3)) {
        Err(e) => Err(e),
        Ok(pairs) => Ok(StructView { name: fields[2], fields: pairs }),
    }
}

/// What the fields of a record describe.
pub open spec fn record_of_fields(fields: Seq<Seq<char>>) -> Result<RecordView, Seq<char>> {
    if fields[0] != META_VERSION@ {
        Err(
            "metadata version `"@ + fields[0] + "` doesn't match this wasm_zero_build (expected `"@
                + META_VERSION@ + "`) — rebuild with matching crate versions"@,
        )
    } else if fields.len() < 3 || fields[2].len() == 0 {
        Err("metadata record missing item name"@)
    } else if fields[1] == "fn"@ {
        match fn_of(fields) {
            Ok(f) => Ok(RecordView::Function(f)),
            Err(e) => Err(e),
        }
    } else if fields[1] == "struct"@ {
        match struct_of(fields) {
            Ok(s) => Ok(RecordView::Struct(s)),
            Err(e) => Err(e),
        }
    } else {
        Err("unknown metadata record kind `"@ + fields[1] + "`"@)
    }
}

/// What the payload of a record describes.
pub open spec fn record_of(payload: Seq<u8>) -> Result<RecordView, Seq<char>> {
    if !valid_utf8(payload) {
        Err("non-utf8 metadata record: "@ + text::utf8_error_text(payload))
    } else {
        record_of_fields(text::split(decode_utf8(payload), FIELD_SEP))
    }
}

/// The records that `blob` consists of, or the first error among them.
pub open spec fn records_of(blob: Seq<u8>) -> Result<Seq<RecordView>, Seq<char>>
    decreases blob.len(),
{
    if blob.len() == 0 {
        Ok(Seq::empty())
    } else if blob.len() < 4 {
        Err("truncated metadata record header"@)
    } else {
        let len = le32(blob.take(4)) as int;
        if 4 + len > blob.len() {
            Err("truncated metadata record"@)
        } else {
            match record_of(blob.subrange(4, 4 + len)) {
                Err(e) => Err(e),
                Ok(first) => match records_of(blob.skip(4 + len)) {
                    Err(e) => Err(e),
                    Ok(rest) => Ok(seq![first] + rest),
                },
            }
        }
    }
}

/// How many structs at the front of `structs` have a name before `name`.
pub open spec fn struct_place(structs: Seq<StructView>, name: Seq<char>) -> nat
    decreases structs.len(),
{
    if structs.len() == 0 || !text::text_less(structs[0].name, name) {
        0
    } else {
        1 + struct_place(structs.skip(1), name)
    }
}

/// `structs` with `s` at its place, instead of a struct of the same name.
pub open spec fn put_struct(structs: Seq<StructView>, s: StructView) -> Seq<StructView> {
    let at = struct_place(structs, s.name) as int;
    if at < structs.len() && structs[at].name == s.name {
        structs.update(at, s)
    } else {
        structs.insert(at, s)
    }
}

/// How many functions at the front of `funcs` have no name behind `name`.
pub open spec fn fn_place(funcs: Seq<FnView>, name: Seq<char>) -> nat
    decreases funcs.len(),
{
    if funcs.len() == 0 || text::text_less(name, funcs[0].name) {
        0
    } else {
        1 + fn_place(funcs.skip(1), name)
    }
}

/// `funcs` with `f` at its place, behind the functions of the same name.
pub open spec fn put_fn(funcs: Seq<FnView>, f: FnView) -> Seq<FnView> {
    funcs.insert(fn_place(funcs, f.name) as int, f)
}

/// The structs among the records, ordered by name. Of two with the same name
/// the later one counts.
pub open spec fn structs_of(records: Seq<RecordView>) -> Seq<StructView>
    decreases records.len(),
{
    if records.len() == 0 {
        Seq::empty()
    } else {
        let before = structs_of(records.drop_last());
        match records.last() {
            RecordView::Struct(s) => put_struct(before, s),
            RecordView::Function(_) => before,
        }
    }
}

/// The functions among the records, ordered by name.
pub open spec fn fns_of(records: Seq<RecordView>) -> Seq<FnView>
    decreases records.len(),
{
    if records.len() == 0 {
        Seq::empty()
    } else {
        let before = fns_of(records.drop_last());
        match records.last() {
            RecordView::Function(f) => put_fn(before, f),
            RecordView::Struct(_) => before,
        }
    }
}

/// All that the records say.
pub open spec fn collected(records: Seq<RecordView>) -> MetaView {
    MetaView { structs: structs_of(records), funcs: fns_of(records) }
}

/// All that `blob` says.
pub open spec fn metadata_of(blob: Seq<u8>) -> Result<MetaView, Seq<char>> {
    match records_of(blob) {
        Ok(records) => Ok(collected(records)),
        Err(e) => Err(e),
    }
}

/// What is made of the type that `text` spells, given what parsing it gave.
pub fn typed(text: &str, parsed: Result<Ty, String>) -> (r: Result<Ty, String>)
    ensures
        match parsed {
            Ok(ty) => r == Ok::<Ty, String>(ty),
            Err(e) => r matches Err(m) && m@ == "bad type `"@ + text@ + "` in metadata: "@ + e@,
        },
{
    match parsed {
        Ok(ty) => Ok(ty),
        Err(e) => {
            let mut m: String = "bad type `".to_owned();
            m.append(text);
            m.append("` in metadata: ");
            m.append(e.as_str());
            Err(m)
        },
    }
}

/// The type that `text` spells.
pub fn parse_ty(text: &str) -> (r: Result<Ty, String>)
    ensures
        match ty_of(text@) {
            Ok(want) => r matches Ok(got) && got@ == want,
            Err(e) => r matches Err(m) && m@ == e,
        },
{
    typed(text, ty::parse_type(text))
}

/// The name and the type that a field holds.
pub fn parse_pair(text: &str) -> (r: Result<(String, Ty), String>)
    ensures
        match pair_of(text@) {
            Ok(want) => r matches Ok(got) && (got.0@, got.1@) == want,
            Err(e) => r matches Err(m) && m@ == e,
        },
{
    let chars = text::chars_of(text);
    let at: usize = text::first_index(&chars, PAIR_SEP);
    if at == chars.len() {
        let mut m: String = "malformed name/type pair `".to_owned();
        m.append(text);
        m.append("` in metadata");
        return Err(m);
    }
    let name = text.substring_char(0, at);
    let ty = text.substring_char(at + 1, chars.len());
    match parse_ty(ty) {
        Ok(ty) => Ok((name.to_owned(), ty)),
        Err(e) => Err(e),
    }
}

/// The names and types that the fields hold from index `from` on.
fn parse_pairs(fields: &Vec<String>, from: usize) -> (r: Result<Vec<(String, Ty)>, String>)
    requires
        from <= fields@.len(),
    ensures
        match pairs_of(text::texts(fields@).skip(from as int)) {
            Ok(want) => r matches Ok(got) && field_views(got@) == want,
            Err(e) => r matches Err(m) && m@ == e,
        },
{
    let ghost rest = text::texts(fields@).skip(from as int);
    let mut out: Vec<(String, Ty)> = Vec::new();
    let mut i: usize = from;
    assert(rest.take(0) =~= Seq::empty());
    assert(field_views(out@) =~= Seq::empty());
    while i < fields.len()
        invariant
            from <= i <= fields@.len(),
            rest == text::texts(fields@).skip(from as int),
            pairs_of(rest.take(i - from)) == Ok::<Seq<FieldView>, Seq<char>>(field_views(out@)),
        decreases fields@.len() - i,
    {
        assert(rest.take(i + 1 - from).drop_last() =~= rest.take(i - from));
        assert(rest.take(i + 1 - from).last() == fields@[i as int]@);
        match parse_pair(fields[i].as_str()) {
            Ok(pair) => {
                let ghost before = field_views(out@);
                out.push(pair);
                assert(field_views(out@) =~= before.push((pair.0@, pair.1@)));
            },
            Err(e) => {
                proof {
                    lemma_pairs_error(rest, i + 1 - from);
                }
                return Err(e);
            },
        }
        i = i + 1;
    }
    assert(rest.take(i - from) =~= rest);
    Ok(out)
}

/// An error among the first fields is the error of all.
proof fn lemma_pairs_error(fields: Seq<Seq<char>>, n: int)
    requires
        0 <= n <= fields.len(),
        pairs_of(fields.take(n)) is Err,
    ensures
        pairs_of(fields) == pairs_of(fields.take(n)),
    decreases fields.len(),
{
    if n == fields.len() {
        assert(fields.take(n) =~= fields);
    } else {
        assert(fields.drop_last().take(n) =~= fields.take(n));
        lemma_pairs_error(fields.drop_last(), n);
    }
}

/// What the fields of a record describe.
pub fn parse_fields(fields: &Vec<String>) -> (r: Result<Record, String>)
    requires
        fields@.len() >= 1,
    ensures
        match record_of_fields(text::texts(fields@)) {
            Ok(want) => r matches Ok(got) && got@ == want,
            Err(e) => r matches Err(m) && m@ == e,
        },
{
    let ghost views = text::texts(fields@);
    assert(views[0] == fields@[0]@);
    if !text::same(fields[0].as_str(), META_VERSION) {
        let mut m: String = "metadata version `".to_owned();
        m.append(fields[0].as_str());
        m.append("` doesn't match this wasm_zero_build (expected `");
        m.append(META_VERSION);
        m.append("`) — rebuild with matching crate versions");
        return Err(m);
    }
    if fields.len() < 3 || fields[2].as_str().is_empty() {
        return Err("metadata record missing item name".to_owned());
    }
    assert(views[1] == fields@[1]@);
    assert(views[2] == fields@[2]@);
    let name: String = fields[2].clone();
    if text::same(fields[1].as_str(), "fn") {
        if fields.len() < 4 {
            let mut m: String = "metadata for fn `".to_owned();
            m.append(name.as_str());
            m.append("` missing return type");
            return Err(m);
        }
        let ret = match parse_ty(fields[3].as_str()) {
            Ok(ret) => ret,
            Err(e) => {
                return Err(e);
            },
        };
        match parse_pairs(fields, 4) {
            Ok(args) => Ok(Record::Function(FnMeta { name, args, ret })),
            Err(e) => Err(e),
        }
    } else if text::same(fields[1].as_str(), "struct") {
        match parse_pairs(fields, 3) {
            Ok(fields) => Ok(Record::Struct(StructMeta { name, fields })),
            Err(e) => Err(e),
        }
    } else {
        let mut m: String = "unknown metadata record kind `".to_owned();
        m.append(fields[1].as_str());
        m.append("`");
        Err(m)
    }
}

/// What the payload of a record describes.
pub fn parse_record(payload: &[u8]) -> (r: Result<Record, String>)
    ensures
        match record_of(payload@) {
            Ok(want) => r matches Ok(got) && got@ == want,
            Err(e) => r matches Err(m) && m@ == e,
        },
{
    match text::utf8_text(payload) {
        Ok(text) => {
            let fields = text::split_text(text.as_str(), FIELD_SEP);
            proof {
                text::law_split_is_undone_by_join(text@, FIELD_SEP);
                assert(text::texts(fields@).len() == fields@.len());
            }
            parse_fields(&fields)
        },
        Err(e) => {
            let mut m: String = "non-utf8 metadata record: ".to_owned();
            m.append(e.as_str());
            Err(m)
        },
    }
}

/// Puts `s` at its place among `structs`, instead of a struct of the same name.
fn put_struct_meta(structs: &mut Vec<StructMeta>, s: StructMeta)
    ensures
        struct_views(final(structs)@) == put_struct(struct_views(old(structs)@), s@),
{
    let ghost views = struct_views(structs@);
    let mut at: usize = 0;
    assert(views.skip(0) =~= views);
    while at < structs.len() && text::less(structs[at].name.as_str(), s.name.as_str())
        invariant
            at <= structs@.len(),
            structs@ == old(structs)@,
            views == struct_views(structs@),
            struct_place(views, s.name@) == at + struct_place(views.skip(at as int), s.name@),
        decreases structs@.len() - at,
    {
        assert(views.skip(at as int)[0] == structs@[at as int]@);
        assert(views.skip(at as int).skip(1) =~= views.skip(at + 1));
        at = at + 1;
    }
    proof {
        if at < structs@.len() {
            assert(views.skip(at as int)[0] == structs@[at as int]@);
        }
        assert(struct_place(views, s.name@) == at);
    }
    if at < structs.len() && text::same(structs[at].name.as_str(), s.name.as_str()) {
        structs.set(at, s);
        assert(struct_views(structs@) =~= views.update(at as int, s@));
    } else {
        structs.insert(at, s);
        assert(struct_views(structs@) =~= views.insert(at as int, s@));
    }
}

/// Puts `f` at its place among `funcs`, behind the functions of the same name.
fn put_fn_meta(funcs: &mut Vec<FnMeta>, f: FnMeta)
    ensures
        fn_views(final(funcs)@) == put_fn(fn_views(old(funcs)@), f@),
{
    let ghost views = fn_views(funcs@);
    let mut at: usize = 0;
    assert(views.skip(0) =~= views);
    while at < funcs.len() && !text::less(f.name.as_str(), funcs[at].name.as_str())
        invariant
            at <= funcs@.len(),
            funcs@ == old(funcs)@,
            views == fn_views(funcs@),
            fn_place(views, f.name@) == at + fn_place(views.skip(at as int), f.name@),
        decreases funcs@.len() - at,
    {
        assert(views.skip(at as int)[0] == funcs@[at as int]@);
        assert(views.skip(at as int).skip(1) =~= views.skip(at + 1));
        at = at + 1;
    }
    proof {
        if at < funcs@.len() {
            assert(views.skip(at as int)[0] == funcs@[at as int]@);
        }
        assert(fn_place(views, f.name@) == at);
    }
    funcs.insert(at, f);
    assert(fn_views(funcs@) =~= views.insert(at as int, f@));
}

/// All that `blob` says.
pub fn parse_records(blob: &[u8]) -> (r: Result<Metadata, String>)
    ensures
        match metadata_of(blob@) {
            Ok(want) => r matches Ok(got) && got@ == want && got.wf(),
            Err(e) => r matches Err(m) && m@ == e,
        },
{
    let mut structs: Vec<StructMeta> = Vec::new();
    let mut funcs: Vec<FnMeta> = Vec::new();
    let ghost mut seen: Seq<RecordView> = Seq::empty();
    let ghost whole = records_of(blob@);
    let mut pos: usize = 0;
    proof {
        assert(blob@.skip(0) =~= blob@);
        assert(struct_views(structs@) =~= structs_of(seen));
        assert(fn_views(funcs@) =~= fns_of(seen));
        if let Ok(rest) = whole {
            assert(seen + rest =~= rest);
        }
    }
    while pos < blob.len()
        invariant
            pos <= blob@.len(),
            whole == records_of(blob@),
            struct_views(structs@) == structs_of(seen),
            fn_views(funcs@) == fns_of(seen),
            match records_of(blob@.skip(pos as int)) {
                Ok(rest) => whole == Ok::<Seq<RecordView>, Seq<char>>(seen + rest),
                Err(e) => whole == Err::<Seq<RecordView>, Seq<char>>(e),
            },
        decreases blob@.len() - pos,
    {
        let ghost here = blob@.skip(pos as int);
        if blob.len() - pos < 4 {
            return Err("truncated metadata record header".to_owned());
        }
        let len: usize = read_le32(blob, pos) as usize;
        assert(here.take(4) =~= blob@.subrange(pos as int, pos + 4));
        pos = pos + 4;
        if len > blob.len() - pos {
            return Err("truncated metadata record".to_owned());
        }
        let payload = slice_subrange(blob, pos, pos + len);
        assert(payload@ =~= here.subrange(4, 4 + len));
        pos = pos + len;
        assert(blob@.skip(pos as int) =~= here.skip(4 + len));
        let record = match parse_record(payload) {
            Ok(record) => record,
            Err(e) => {
                return Err(e);
            },
        };
        proof {
            let next = seen.push(record@);
            assert(next.drop_last() =~= seen);
            if let Ok(rest) = records_of(blob@.skip(pos as int)) {
                assert(seen + (seq![record@] + rest) =~= next + rest);
            }
            seen = next;
        }
        match record {
            Record::Function(f) => {
                put_fn_meta(&mut funcs, f);
            },
            Record::Struct(s) => {
                put_struct_meta(&mut structs, s);
            },
        }
    }
    assert(seen + Seq::<RecordView>::empty() =~= seen);
    proof {
        order::law_collected_is_ordered(seen);
    }
    Ok(Metadata { structs, funcs })
}

/// The number in the four bytes at `pos`, least significant first.
pub fn read_le32(bytes: &[u8], pos: usize) -> (r: u32)
    requires
        pos + 4 <= bytes@.len(),
    ensures
        r == le32(bytes@.subrange(pos as int, pos + 4)),
{
    bytes[pos] as u32 + 0x100 * (bytes[pos + 1] as u32) + 0x1_0000 * (bytes[pos + 2] as u32)
        + 0x100_0000 * (bytes[pos + 3] as u32)
}

/// The four bytes of a number, least significant first.
pub fn to_le32(n: u32) -> (r: Vec<u8>)
    ensures
        r@ == le32_bytes(n as nat),
{
    let mut out: Vec<u8> = Vec::with_capacity(4);
    out.push((n % 0x100) as u8);
    out.push((n / 0x100 % 0x100) as u8);
    out.push((n / 0x1_0000 % 0x100) as u8);
    out.push((n / 0x100_0000 % 0x100) as u8);
    assert(out@ =~= le32_bytes(n as nat));
    out
}

/// The field that pairs a name with the spelling of a type.
pub open spec fn pair_text(pair: (Seq<char>, Seq<char>)) -> Seq<char> {
    pair.0 + seq![PAIR_SEP] + pair.1
}

/// The fields of the record of a struct, given the names of its fields and the
/// spellings of their types.
pub open spec fn struct_fields(name: Seq<char>, pairs: Seq<(Seq<char>, Seq<char>)>) -> Seq<
    Seq<char>,
> {
    seq![META_VERSION@, "struct"@, name] + pairs.map_values(|p: (Seq<char>, Seq<char>)| pair_text(p))
}

/// The fields of the record of a function, given the spelling of its return
/// type, the names of its arguments and the spellings of their types.
pub open spec fn fn_fields(
    name: Seq<char>,
    ret: Seq<char>,
    pairs: Seq<(Seq<char>, Seq<char>)>,
) -> Seq<Seq<char>> {
    seq![META_VERSION@, "fn"@, name, ret] + pairs.map_values(
        |p: (Seq<char>, Seq<char>)| pair_text(p),
    )
}

/// The payload of the record with these fields.
pub open spec fn payload_of(fields: Seq<Seq<char>>) -> Seq<u8> {
    encode_utf8(text::join(fields, seq![FIELD_SEP]))
}

/// The record with these fields.
pub open spec fn record_bytes(fields: Seq<Seq<char>>) -> Seq<u8> {
    le32_bytes(payload_of(fields).len()) + payload_of(fields)
}

/// The record with these fields.
pub fn encode_record(fields: &Vec<String>) -> (r: Vec<u8>)
    ensures
        r@ == record_bytes(text::texts(fields@)),
{
    proof {
        reveal_strlit("\u{1f}");
        assert("\u{1f}"@ =~= seq![FIELD_SEP]);
    }
    let payload: String = text::join_texts(fields, "\u{1f}");
    let bytes = payload.as_str().as_bytes();
    let len: u32 = (bytes.len() as u64 % 0x1_0000_0000) as u32;
    let mut out: Vec<u8> = to_le32(len);
    proof {
        lemma_le32_wraps(bytes@.len());
    }
    wasm::extend(&mut out, bytes);
    out
}

/// The spellings in a list of pairs.
pub open spec fn pair_views(pairs: Seq<(String, String)>) -> Seq<(Seq<char>, Seq<char>)> {
    pairs.map_values(|p: (String, String)| (p.0@, p.1@))
}

/// Appends the fields that pair names with types.
fn push_pairs(out: &mut Vec<String>, pairs: &Vec<(String, String)>)
    ensures
        text::texts(final(out)@) == text::texts(old(out)@) + pair_views(pairs@).map_values(
            |p: (Seq<char>, Seq<char>)| pair_text(p),
        ),
{
    let ghost start = text::texts(out@);
    let ghost more = pair_views(pairs@).map_values(|p: (Seq<char>, Seq<char>)| pair_text(p));
    let mut i: usize = 0;
    assert(start + more.take(0) =~= start);
    proof {
        reveal_strlit("\u{1e}");
        assert("\u{1e}"@ =~= seq![PAIR_SEP]);
    }
    while i < pairs.len()
        invariant
            i <= pairs@.len(),
            "\u{1e}"@ == seq![PAIR_SEP],
            more == pair_views(pairs@).map_values(|p: (Seq<char>, Seq<char>)| pair_text(p)),
            text::texts(out@) == start + more.take(i as int),
        decreases pairs@.len() - i,
    {
        let mut field: String = pairs[i].0.clone();
        field.append("\u{1e}");
        field.append(pairs[i].1.as_str());
        let ghost before = text::texts(out@);
        out.push(field);
        assert(text::texts(out@) =~= before.push(field@));
        assert(field@ == more[i as int]);
        assert(more.take(i + 1) =~= more.take(i as int).push(more[i as int]));
        assert(text::texts(out@) =~= start + more.take(i + 1));
        i = i + 1;
    }
    assert(more.take(i as int) =~= more);
}

/// The fields of the record of a struct.
pub fn struct_record(name: &str, pairs: &Vec<(String, String)>) -> (r: Vec<String>)
    ensures
        text::texts(r@) == struct_fields(name@, pair_views(pairs@)),
{
    let mut out: Vec<String> = Vec::new();
    out.push(META_VERSION.to_owned());
    out.push("struct".to_owned());
    out.push(name.to_owned());
    assert(text::texts(out@) =~= seq![META_VERSION@, "struct"@, name@]);
    push_pairs(&mut out, pairs);
    out
}

/// The fields of the record of a function.
pub fn fn_record(name: &str, ret: &str, pairs: &Vec<(String, String)>) -> (r: Vec<String>)
    ensures
        text::texts(r@) == fn_fields(name@, ret@, pair_views(pairs@)),
{
    let mut out: Vec<String> = Vec::new();
    out.push(META_VERSION.to_owned());
    out.push("fn".to_owned());
    out.push(name.to_owned());
    out.push(ret.to_owned());
    assert(text::texts(out@) =~= seq![META_VERSION@, "fn"@, name@, ret@]);
    push_pairs(&mut out, pairs);
    out
}

/// A byte of a number is not changed by what is added far above it.
proof fn lemma_byte_wraps(m: nat, d: nat, k: nat)
    requires
        d > 0,
    ensures
        (m + 0x100 * k * d) / d % 0x100 == m / d % 0x100,
{
    vstd::arithmetic::div_mod::lemma_hoist_over_denominator(m as int, 0x100 * k as int, d);
    vstd::arithmetic::div_mod::lemma_mod_multiples_vanish(k as int, (m / d) as int, 0x100);
}

proof fn lemma_byte_1_wraps(m: nat, q: nat)
    ensures
        (m + 0x1_0000_0000 * q) / 0x100 % 0x100 == m / 0x100 % 0x100,
{
    lemma_byte_wraps(m, 0x100, 0x1_0000 * q);
}

proof fn lemma_byte_2_wraps(m: nat, q: nat)
    ensures
        (m + 0x1_0000_0000 * q) / 0x1_0000 % 0x100 == m / 0x1_0000 % 0x100,
{
    lemma_byte_wraps(m, 0x1_0000, 0x100 * q);
}

proof fn lemma_byte_3_wraps(m: nat, q: nat)
    ensures
        (m + 0x1_0000_0000 * q) / 0x100_0000 % 0x100 == m / 0x100_0000 % 0x100,
{
    lemma_byte_wraps(m, 0x100_0000, q);
}

proof fn lemma_le32_wraps(n: nat)
    ensures
        le32_bytes(n % 0x1_0000_0000) == le32_bytes(n),
{
    let m = n % 0x1_0000_0000;
    let q = n / 0x1_0000_0000;
    assert(n == m + 0x1_0000_0000 * q);
    assert(n % 0x100 == m % 0x100);
    lemma_byte_1_wraps(m, q);
    lemma_byte_2_wraps(m, q);
    lemma_byte_3_wraps(m, q);
}

/// Four bytes hold a number below `0x1_0000_0000`.
#[verifier::rlimit(40)]
pub proof fn lemma_le32(n: nat)
    requires
        n < 0x1_0000_0000,
    ensures
        le32_bytes(n).len() == 4,
        le32(le32_bytes(n)) == n,
{
    assert(n == n % 0x100 + 0x100 * (n / 0x100 % 0x100) + 0x1_0000 * (n / 0x1_0000 % 0x100)
        + 0x100_0000 * (n / 0x100_0000 % 0x100));
}

/// Records follow each other: if `a` is a list of records, the records of
/// `a + b` are those of `a` and then those of `b`.
pub proof fn law_records_concatenate(a: Seq<u8>, b: Seq<u8>)
    requires
        records_of(a) is Ok,
    ensures
        records_of(a + b) == match records_of(b) {
            Ok(rest) => Ok::<Seq<RecordView>, Seq<char>>(records_of(a)->Ok_0 + rest),
            Err(e) => Err(e),
        },
    decreases a.len(),
{
    if a.len() == 0 {
        assert(a + b =~= b);
        if let Ok(rest) = records_of(b) {
            assert(records_of(a)->Ok_0 + rest =~= rest);
        }
    } else {
        let len = le32(a.take(4)) as int;
        let s = a + b;
        assert(s.take(4) =~= a.take(4));
        assert(s.subrange(4, 4 + len) =~= a.subrange(4, 4 + len));
        assert(s.skip(4 + len) =~= a.skip(4 + len) + b);
        law_records_concatenate(a.skip(4 + len), b);
        let first = record_of(a.subrange(4, 4 + len))->Ok_0;
        let mid = records_of(a.skip(4 + len))->Ok_0;
        if let Ok(rest) = records_of(b) {
            assert(seq![first] + (mid + rest) =~= (seq![first] + mid) + rest);
        }
    }
}

/// A record is read back as its fields say, if the separator does not occur in
/// them and the length of the payload fits its prefix.
pub proof fn law_record_is_read_back(fields: Seq<Seq<char>>)
    requires
        fields.len() >= 1,
        forall|i: int| 0 <= i < fields.len() ==> !(#[trigger] fields[i]).contains(FIELD_SEP),
        payload_of(fields).len() < 0x1_0000_0000,
    ensures
        records_of(record_bytes(fields)) == match record_of_fields(fields) {
            Ok(record) => Ok::<Seq<RecordView>, Seq<char>>(seq![record]),
            Err(e) => Err(e),
        },
{
    let payload = payload_of(fields);
    let blob = record_bytes(fields);
    lemma_le32(payload.len());
    assert(blob.take(4) =~= le32_bytes(payload.len()));
    assert(blob.subrange(4, 4 + payload.len() as int) =~= payload);
    assert(blob.skip(4 + payload.len() as int) =~= Seq::empty());
    let joined = text::join(fields, seq![FIELD_SEP]);
    encode_utf8_valid_utf8(joined);
    encode_utf8_decode_utf8(joined);
    text::law_join_is_undone_by_split(fields, FIELD_SEP);
    let rest = Seq::<u8>::empty();
    assert(records_of(rest) == Ok::<Seq<RecordView>, Seq<char>>(Seq::empty()));
    if let Ok(record) = record_of_fields(fields) {
        assert(seq![record] + Seq::<RecordView>::empty() =~= seq![record]);
    }
}

/// The pairs hold no separator where none may stand, and their types are
/// spelled right.
pub open spec fn pairs_fit(pairs: Seq<(Seq<char>, Seq<char>)>) -> bool {
    forall|i: int|
        0 <= i < pairs.len() ==> {
            &&& !(#[trigger] pairs[i]).0.contains(FIELD_SEP)
            &&& !pairs[i].0.contains(PAIR_SEP)
            &&& !pairs[i].1.contains(FIELD_SEP)
            &&& parsed(pairs[i].1)
        }
}

/// `spelling` is that of a type.
pub open spec fn parsed(spelling: Seq<char>) -> bool {
    ty::parsed_type(spelling) is Ok
}

/// The names with the types that are spelled.
pub open spec fn typed_pairs(pairs: Seq<(Seq<char>, Seq<char>)>) -> Seq<FieldView> {
    pairs.map_values(|p: (Seq<char>, Seq<char>)| (p.0, ty::parsed_type(p.1)->Ok_0))
}

proof fn lemma_first_at(a: Seq<char>, c: char, b: Seq<char>)
    requires
        !a.contains(c),
    ensures
        text::first_at(a + seq![c] + b, c) == a.len(),
    decreases a.len(),
{
    let s = a + seq![c] + b;
    if a.len() > 0 {
        assert(s[0] == a[0]);
        assert(a.contains(a[0]));
        assert(!a.skip(1).contains(c)) by {
            if a.skip(1).contains(c) {
                let k = choose|k: int| 0 <= k < a.skip(1).len() && a.skip(1)[k] == c;
                assert(a[k + 1] == c);
            }
        }
        lemma_first_at(a.skip(1), c, b);
        assert(s.skip(1) =~= a.skip(1) + seq![c] + b);
    } else {
        assert(s[0] == c);
    }
}

proof fn lemma_pairs_read_back(pairs: Seq<(Seq<char>, Seq<char>)>)
    requires
        pairs_fit(pairs),
    ensures
        pairs_of(pairs.map_values(|p: (Seq<char>, Seq<char>)| pair_text(p))) == Ok::<
            Seq<FieldView>,
            Seq<char>,
        >(typed_pairs(pairs)),
    decreases pairs.len(),
{
    let fields = pairs.map_values(|p: (Seq<char>, Seq<char>)| pair_text(p));
    if pairs.len() == 0 {
        assert(typed_pairs(pairs) =~= Seq::empty());
    } else {
        let front = pairs.drop_last();
        assert forall|i: int| 0 <= i < front.len() implies {
            &&& !(#[trigger] front[i]).0.contains(FIELD_SEP)
            &&& !front[i].0.contains(PAIR_SEP)
            &&& !front[i].1.contains(FIELD_SEP)
            &&& parsed(front[i].1)
        } by {
            assert(front[i] == pairs[i]);
        }
        lemma_pairs_read_back(front);
        assert(fields.drop_last() =~= front.map_values(
            |p: (Seq<char>, Seq<char>)| pair_text(p),
        ));
        let last = pairs[pairs.len() - 1];
        let text = pair_text(last);
        assert(fields.last() == text);
        lemma_first_at(last.0, PAIR_SEP, last.1);
        assert(text.take(last.0.len() as int) =~= last.0);
        assert(text.skip(last.0.len() as int + 1) =~= last.1);
        assert(typed_pairs(pairs) =~= typed_pairs(front).push((
            last.0,
            ty::parsed_type(last.1)->Ok_0,
        )));
    }
}

proof fn lemma_no_sep_in_pairs(pairs: Seq<(Seq<char>, Seq<char>)>, i: int)
    requires
        pairs_fit(pairs),
        0 <= i < pairs.len(),
    ensures
        !pair_text(pairs[i]).contains(FIELD_SEP),
{
    let t = pair_text(pairs[i]);
    if t.contains(FIELD_SEP) {
        let k = choose|k: int| 0 <= k < t.len() && t[k] == FIELD_SEP;
        if k < pairs[i].0.len() {
            assert(pairs[i].0[k] == FIELD_SEP);
        } else if k > pairs[i].0.len() {
            assert(pairs[i].1[k - pairs[i].0.len() - 1] == FIELD_SEP);
        }
    }
}

proof fn lemma_fixed_fields()
    ensures
        !META_VERSION@.contains(FIELD_SEP),
        !"struct"@.contains(FIELD_SEP),
        !"fn"@.contains(FIELD_SEP),
        "struct"@ != "fn"@,
{
    reveal_strlit("1");
    reveal_strlit("struct");
    reveal_strlit("fn");
    assert("struct"@.len() == 6);
    assert("fn"@.len() == 2);
}

/// What the record of a struct says is the struct: its name and its fields,
/// with the types that are spelled in it.
pub proof fn law_struct_record_is_read_back(name: Seq<char>, pairs: Seq<(Seq<char>, Seq<char>)>)
    requires
        name.len() > 0,
        !name.contains(FIELD_SEP),
        pairs_fit(pairs),
        payload_of(struct_fields(name, pairs)).len() < 0x1_0000_0000,
    ensures
        records_of(record_bytes(struct_fields(name, pairs))) == Ok::<Seq<RecordView>, Seq<char>>(
            seq![RecordView::Struct(StructView { name, fields: typed_pairs(pairs) })],
        ),
{
    let fields = struct_fields(name, pairs);
    lemma_fixed_fields();
    assert forall|i: int| 0 <= i < fields.len() implies !(#[trigger] fields[i]).contains(
        FIELD_SEP,
    ) by {
        if i >= 3 {
            lemma_no_sep_in_pairs(pairs, i - 3);
        }
    }
    law_record_is_read_back(fields);
    lemma_pairs_read_back(pairs);
    assert(fields.skip(3) =~= pairs.map_values(|p: (Seq<char>, Seq<char>)| pair_text(p)));
}

/// What the record of a function says is the function: its name, its arguments
/// and its return type, with the types that are spelled in it.
pub proof fn law_fn_record_is_read_back(
    name: Seq<char>,
    ret: Seq<char>,
    pairs: Seq<(Seq<char>, Seq<char>)>,
)
    requires
        name.len() > 0,
        !name.contains(FIELD_SEP),
        !ret.contains(FIELD_SEP),
        parsed(ret),
        pairs_fit(pairs),
        payload_of(fn_fields(name, ret, pairs)).len() < 0x1_0000_0000,
    ensures
        records_of(record_bytes(fn_fields(name, ret, pairs))) == Ok::<Seq<RecordView>, Seq<char>>(
            seq![
                RecordView::Function(
                    FnView {
                        name,
                        args: typed_pairs(pairs),
                        ret: ty::parsed_type(ret)->Ok_0,
                    },
                ),
            ],
        ),
{
    let fields = fn_fields(name, ret, pairs);
    lemma_fixed_fields();
    assert forall|i: int| 0 <= i < fields.len() implies !(#[trigger] fields[i]).contains(
        FIELD_SEP,
    ) by {
        if i >= 4 {
            lemma_no_sep_in_pairs(pairs, i - 4);
        }
    }
    law_record_is_read_back(fields);
    lemma_pairs_read_back(pairs);
    assert(fields.skip(4) =~= pairs.map_values(|p: (Seq<char>, Seq<char>)| pair_text(p)));
}

/// A record is refused for the first thing that is wrong with it: another version,
/// a name that is missing or empty, a kind of item that there is not, or a function
/// without a return type.
pub proof fn law_bad_record_is_refused(fields: Seq<Seq<char>>)
    requires
        fields.len() >= 1,
        forall|i: int| 0 <= i < fields.len() ==> !(#[trigger] fields[i]).contains('\u{1f}'),
        payload_of(fields).len() < 0x1_0000_0000,
    ensures
        ({
            let r = records_of(record_bytes(fields));
            let err = |m: Seq<char>| Err::<Seq<RecordView>, Seq<char>>(m);
            if fields[0] != "1"@ {
                r == err(
                    "metadata version `"@ + fields[0]
                        + "` doesn't match this wasm_zero_build (expected `"@ + "1"@
                        + "`) — rebuild with matching crate versions"@,
                )
            } else if fields.len() < 3 || fields[2].len() == 0 {
                r == err("metadata record missing item name"@)
            } else if fields[1] != "fn"@ && fields[1] != "struct"@ {
                r == err("unknown metadata record kind `"@ + fields[1] + "`"@)
            } else if fields[1] == "fn"@ && fields.len() == 3 {
                r == err("metadata for fn `"@ + fields[2] + "` missing return type"@)
            } else {
                true
            }
        }),
{
    lemma_fixed_fields();
    law_record_is_read_back(fields);
}

/// A blob that ends within a record is refused, and so is a payload that is no
/// text, whatever comes behind it.
pub proof fn law_bad_blob_is_refused(payload: Seq<u8>, n: nat, rest: Seq<u8>)
    requires
        n < 0x1_0000_0000,
    ensures
        0 < rest.len() < 4 ==> records_of(rest) == Err::<Seq<RecordView>, Seq<char>>(
            "truncated metadata record header"@,
        ),
        payload.len() < n ==> records_of(le32_bytes(n) + payload) == Err::<
            Seq<RecordView>,
            Seq<char>,
        >("truncated metadata record"@),
        payload.len() == n && !valid_utf8(payload) ==> records_of(
            le32_bytes(n) + payload + rest,
        ) == Err::<Seq<RecordView>, Seq<char>>(
            "non-utf8 metadata record: "@ + text::utf8_error_text(payload),
        ),
        records_of(Seq::empty()) == Ok::<Seq<RecordView>, Seq<char>>(Seq::empty()),
{
    lemma_le32(n);
    assert((le32_bytes(n) + payload).take(4) =~= le32_bytes(n));
    let blob = le32_bytes(n) + payload + rest;
    assert(blob.take(4) =~= le32_bytes(n));
    if payload.len() == n {
        assert(blob.subrange(4, 4 + n as int) =~= payload);
    }
}

/// The first argument or field that cannot be read is what a record is refused
/// for: one without the separator between name and type, or one whose type cannot
/// be parsed.
pub proof fn law_bad_pair_is_refused(
    good: Seq<(Seq<char>, Seq<char>)>,
    bad: Seq<char>,
    name: Seq<char>,
    spelling: Seq<char>,
    rest: Seq<Seq<char>>,
)
    requires
        pairs_fit(good),
        !bad.contains('\u{1e}'),
        !name.contains('\u{1e}'),
        ty::parsed_type(spelling) is Err,
    ensures
        ({
            let before = good.map_values(|p: (Seq<char>, Seq<char>)| pair_text(p));
            &&& pairs_of(before + seq![bad] + rest) == Err::<Seq<FieldView>, Seq<char>>(
                "malformed name/type pair `"@ + bad + "` in metadata"@,
            )
            &&& pairs_of(before + seq![name + seq!['\u{1e}'] + spelling] + rest) == Err::<
                Seq<FieldView>,
                Seq<char>,
            >(
                "bad type `"@ + spelling + "` in metadata: "@ + ty::parsed_type(
                    spelling,
                )->Err_0,
            )
        }),
{
    let before = good.map_values(|p: (Seq<char>, Seq<char>)| pair_text(p));
    lemma_pairs_read_back(good);
    let n = before.len() as int + 1;
    let one = before + seq![bad] + rest;
    assert(one.take(n).drop_last() =~= before);
    assert(one.take(n).last() == bad);
    lemma_no_first(bad, PAIR_SEP);
    lemma_pairs_error(one, n);
    let pair = name + seq![PAIR_SEP] + spelling;
    let two = before + seq![pair] + rest;
    assert(two.take(n).drop_last() =~= before);
    assert(two.take(n).last() == pair);
    lemma_first_at(name, PAIR_SEP, spelling);
    assert(pair.skip(name.len() as int + 1) =~= spelling);
    lemma_pairs_error(two, n);
}

proof fn lemma_no_first(s: Seq<char>, c: char)
    requires
        !s.contains(c),
    ensures
        text::first_at(s, c) == s.len(),
    decreases s.len(),
{
    if s.len() > 0 {
        assert(s.contains(s[0]));
        assert(!s.skip(1).contains(c)) by {
            if s.skip(1).contains(c) {
                let k = choose|k: int| 0 <= k < s.skip(1).len() && s.skip(1)[k] == c;
                assert(s[k + 1] == c);
            }
        }
        lemma_no_first(s.skip(1), c);
    }
}

/// The bytes of a number, each worth 256 times the one before it, the first one
/// worth itself.
#[verifier::rlimit(40)]
pub proof fn law_least_significant_byte_comes_first(b: Seq<u8>, n: nat)
    requires
        b.len() == 4,
        n < 0x1_0000_0000,
    ensures
        le32(b) == b[0] + 256 * (b[1] + 256 * (b[2] + 256 * b[3])),
        le32_bytes(n).len() == 4,
        n == le32_bytes(n)[0] + 256 * (le32_bytes(n)[1] + 256 * (le32_bytes(n)[2] + 256
            * le32_bytes(n)[3])),
        le32_bytes(le32(b)) == b,
{
    lemma_le32(n);
    lemma_bytes_of(b[0] as int, b[1] as int, b[2] as int, b[3] as int);
    let c = le32_bytes(le32(b));
    assert(c[0] == b[0] && c[1] == b[1] && c[2] == b[2] && c[3] == b[3]);
    assert(c =~= b);
}

proof fn lemma_bytes_of(b0: int, b1: int, b2: int, b3: int)
    requires
        0 <= b0 < 0x100,
        0 <= b1 < 0x100,
        0 <= b2 < 0x100,
        0 <= b3 < 0x100,
    ensures
        ({
            let m = b0 + 0x100 * b1 + 0x1_0000 * b2 + 0x100_0000 * b3;
            &&& m % 0x100 == b0
            &&& m / 0x100 % 0x100 == b1
            &&& m / 0x1_0000 % 0x100 == b2
            &&& m / 0x100_0000 % 0x100 == b3
        }),
{
    let m = b0 + 0x100 * b1 + 0x1_0000 * b2 + 0x100_0000 * b3;
    let q1 = b1 + 0x100 * b2 + 0x1_0000 * b3;
    let q2 = b2 + 0x100 * b3;
    vstd::arithmetic::div_mod::lemma_fundamental_div_mod_converse(m, 0x100, q1, b0);
    vstd::arithmetic::div_mod::lemma_fundamental_div_mod_converse(q1, 0x100, q2, b1);
    vstd::arithmetic::div_mod::lemma_fundamental_div_mod_converse(
        m,
        0x1_0000,
        q2,
        b0 + 0x100 * b1,
    );
    vstd::arithmetic::div_mod::lemma_fundamental_div_mod_converse(q2, 0x100, b3, b2);
    vstd::arithmetic::div_mod::lemma_fundamental_div_mod_converse(
        m,
        0x100_0000,
        b3,
        b0 + 0x100 * b1 + 0x1_0000 * b2,
    );
    vstd::arithmetic::div_mod::lemma_small_mod(b3 as nat, 0x100);
}

/// A record is its length and its text: the version, the kind of item, its name,
/// for a function its return type, and then names with types, with separators
/// between them.
pub proof fn law_record_is_its_fields(
    name: Seq<char>,
    ret: Seq<char>,
    pairs: Seq<(Seq<char>, Seq<char>)>,
)
    ensures
        ({
            let listed = Seq::new(
                pairs.len(),
                |i: int| pairs[i].0 + seq!['\u{1e}'] + pairs[i].1,
            );
            let text = |fields: Seq<Seq<char>>| encode_utf8(text::join(fields, seq!['\u{1f}']));
            let f = text(seq!["1"@, "fn"@, name, ret] + listed);
            let s = text(seq!["1"@, "struct"@, name] + listed);
            &&& record_bytes(fn_fields(name, ret, pairs)) == le32_bytes(f.len()) + f
            &&& record_bytes(struct_fields(name, pairs)) == le32_bytes(s.len()) + s
        }),
{
    let listed = Seq::new(pairs.len(), |i: int| pairs[i].0 + seq!['\u{1e}'] + pairs[i].1);
    assert(pairs.map_values(|p: (Seq<char>, Seq<char>)| pair_text(p)) =~= listed);
}

} // verus!
