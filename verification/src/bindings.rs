//! Bindings: from a compiled binary to the two modules to write.
use crate::meta;
use crate::meta::FnView;
use crate::meta::MetaView;
use crate::meta::Metadata;
use crate::meta::RecordView;
use crate::meta::StructView;
use crate::method;
use crate::module;
use crate::template;
use crate::text;
use crate::wasm;
use vstd::prelude::*;

verus! {

/// What is said of a binary without metadata.
pub const NO_METADATA: &'static str = "no `__wasm_zero` metadata section found — does the crate use #[wasm_zero]? (note: wasm-opt/strip may remove custom sections; generate bindings first)";

/// The two files to write.
#[derive(Debug)]
pub struct Generated {
    pub ts: String,
    pub js: String,
}

/// All that is recorded in a binary.
pub open spec fn described(binary: Seq<u8>) -> Result<MetaView, Seq<char>> {
    match wasm::extracted(binary) {
        Err(e) => Err(e),
        Ok(blob) => if blob.len() == 0 {
            Err(NO_METADATA@)
        } else {
            meta::metadata_of(blob)
        },
    }
}

/// What is wrong with a binary is told: that it cannot be read, that it holds no
/// metadata, or what is wrong with the metadata. Where nothing is, all records count,
/// however many there are.
pub proof fn law_binary_is_described_by_its_metadata(binary: Seq<u8>, blob: Seq<u8>, e: Seq<char>)
    ensures
        wasm::extracted(binary) == Err::<Seq<u8>, Seq<char>>(e) ==> described(binary) == Err::<
            MetaView,
            Seq<char>,
        >(e),
        wasm::extracted(binary) == Ok::<Seq<u8>, Seq<char>>(Seq::empty()) ==> described(binary)
            == Err::<MetaView, Seq<char>>(NO_METADATA@),
        wasm::extracted(binary) == Ok::<Seq<u8>, Seq<char>>(blob) && blob.len() > 0
            && meta::records_of(blob) == Err::<Seq<RecordView>, Seq<char>>(e) ==> described(binary)
            == Err::<MetaView, Seq<char>>(e),
        wasm::extracted(binary) == Ok::<Seq<u8>, Seq<char>>(blob) && blob.len() > 0
            && meta::records_of(blob) is Ok ==> described(binary) == Ok::<MetaView, Seq<char>>(
            meta::collected(meta::records_of(blob)->Ok_0),
        ),
{
}

/// Every type in the metadata can be rendered.
pub open spec fn renderable(m: MetaView) -> bool {
    module::module(true, m) is Some && module::module(false, m) is Some
}

/// The two files for what is described by `m`.
pub open spec fn are_bindings(g: Generated, m: MetaView) -> bool {
    module::module(true, m) == Some(g.ts@) && module::module(false, m) == Some(g.js@)
}

proof fn lemma_all_there(pieces: Seq<Option<Seq<char>>>, i: int)
    requires
        text::gathered(pieces) is Some,
        0 <= i < pieces.len(),
    ensures
        pieces[i] is Some,
{
    if pieces[i] is None {
        text::lemma_missing(pieces, i);
    }
}

proof fn lemma_gathers(pieces: Seq<Option<Seq<char>>>)
    requires
        forall|i: int| 0 <= i < pieces.len() ==> (#[trigger] pieces[i]) is Some,
    ensures
        text::gathered(pieces) is Some,
    decreases pieces.len(),
{
    if pieces.len() > 0 {
        assert forall|i: int| 0 <= i < pieces.drop_last().len() implies (
        #[trigger] pieces.drop_last()[i]) is Some by {
            assert(pieces[i] is Some);
        }
        lemma_gathers(pieces.drop_last());
        assert(pieces[pieces.len() - 1] is Some);
    }
}

/// Where the module with types can be rendered, the one without can be too.
pub proof fn law_types_only_add_demands(m: MetaView)
    requires
        module::module(true, m) is Some,
    ensures
        renderable(m),
{
    let with = m.funcs.map_values(|f: FnView| method::method(f, m.structs, true));
    let without = m.funcs.map_values(|f: FnView| method::method(f, m.structs, false));
    assert forall|i: int| 0 <= i < without.len() implies (#[trigger] without[i]) is Some by {
        lemma_all_there(with, i);
        assert(with[i] is Some);
    }
    lemma_gathers(without);
}

/// The encoder is imported exactly where a function takes an argument that is
/// no scalar.
pub proof fn law_encoder_is_imported_where_needed(typed: bool, m: MetaView)
    requires
        module::module(typed, m) is Some,
    ensures
        method::needs_encoder(m.funcs) ==> (template::BANNER@ + template::IMPORT@).is_prefix_of(
            module::module(typed, m)->0,
        ),
        !method::needs_encoder(m.funcs) ==> (template::BANNER@ + "\n"@
            + module::runtime()).is_prefix_of(module::module(typed, m)->0),
        !method::needs_encoder(m.funcs) ==> module::codecs(m) == Some(Seq::<char>::empty()),
{
    let encodes = method::needs_encoder(m.funcs);
    let start = template::BANNER@ + text::when(encodes, template::IMPORT@);
    let front = start + "\n"@ + module::runtime();
    let codecs = module::codecs(m)->0;
    let readers = text::gathered_text(
        m.structs.map_values(|s: StructView| module::struct_reader(s, m.structs)),
    )->0;
    let interfaces = module::interfaces(m.structs, typed)->0;
    let methods = text::gathered_text(
        m.funcs.map_values(|f: FnView| method::method(f, m.structs, typed)),
    )->0;
    lemma_prefix(start, start, "\n"@);
    lemma_prefix(start, start + "\n"@, module::runtime());
    lemma_prefix_of_chain(
        start,
        front,
        codecs,
        "// ---- per-struct field readers ----\n"@,
        readers,
        interfaces,
        module::client(typed, encodes),
        methods,
        "  };\n}\n\n"@,
        module::loader(typed),
    );
    lemma_prefix_of_chain(
        front,
        front,
        codecs,
        "// ---- per-struct field readers ----\n"@,
        readers,
        interfaces,
        module::client(typed, encodes),
        methods,
        "  };\n}\n\n"@,
        module::loader(typed),
    );
    if !encodes {
        assert(start =~= template::BANNER@);
    }
}

proof fn lemma_prefix(p: Seq<char>, a: Seq<char>, b: Seq<char>)
    requires
        p.is_prefix_of(a),
    ensures
        p.is_prefix_of(a + b),
{
    assert((a + b).subrange(0, p.len() as int) =~= a.subrange(0, p.len() as int));
}

proof fn lemma_prefix_of_chain(
    p: Seq<char>,
    a: Seq<char>,
    b: Seq<char>,
    c: Seq<char>,
    d: Seq<char>,
    e: Seq<char>,
    f: Seq<char>,
    g: Seq<char>,
    h: Seq<char>,
    i: Seq<char>,
)
    requires
        p.is_prefix_of(a),
    ensures
        p.is_prefix_of(a + b + c + d + e + f + g + h + i),
{
    lemma_prefix(p, a, b);
    lemma_prefix(p, a + b, c);
    lemma_prefix(p, a + b + c, d);
    lemma_prefix(p, a + b + c + d, e);
    lemma_prefix(p, a + b + c + d + e, f);
    lemma_prefix(p, a + b + c + d + e + f, g);
    lemma_prefix(p, a + b + c + d + e + f + g, h);
    lemma_prefix(p, a + b + c + d + e + f + g + h, i);
}

/// A binary without its metadata describes nothing: bindings have to be
/// generated before it is stripped.
pub proof fn law_stripped_binary_describes_nothing(binary: Seq<u8>)
    requires
        wasm::stripped(binary) is Ok,
        wasm::module_sections(wasm::stripped(binary)->Ok_0) is Ok,
    ensures
        described(wasm::stripped(binary)->Ok_0) == Err::<MetaView, Seq<char>>(
            NO_METADATA@,
        ),
{
    wasm::law_strip_keeps_the_other_sections(binary);
}

/// `part` stands somewhere in `all`.
pub open spec fn holds(all: Seq<char>, part: Seq<char>) -> bool {
    exists|a: Seq<char>, b: Seq<char>| all == #[trigger] (a + part + b)
}

proof fn lemma_holds_itself(part: Seq<char>)
    ensures
        holds(part, part),
{
    let none = Seq::<char>::empty();
    assert(part =~= none + part + none);
}

proof fn lemma_holds_around(before: Seq<char>, all: Seq<char>, after: Seq<char>, part: Seq<char>)
    requires
        holds(all, part),
    ensures
        holds(before + all + after, part),
        holds(before + all, part),
        holds(all + after, part),
{
    let (a, b) = choose|a: Seq<char>, b: Seq<char>| all == #[trigger] (a + part + b);
    assert(before + all + after =~= (before + a) + part + (b + after));
    assert(before + all =~= (before + a) + part + b);
    assert(all + after =~= a + part + (b + after));
}

proof fn lemma_gathered_holds(pieces: Seq<Option<Seq<char>>>, i: int)
    requires
        0 <= i < pieces.len(),
        text::gathered(pieces) is Some,
    ensures
        pieces[i] is Some,
        holds(text::concat(text::gathered(pieces)->0), pieces[i]->0),
    decreases pieces.len(),
{
    let front = pieces.drop_last();
    let before = text::gathered(front)->0;
    let all = text::gathered(pieces)->0;
    assert(all.drop_last() =~= before);
    if i < front.len() {
        lemma_gathered_holds(front, i);
        lemma_holds_around(Seq::empty(), text::concat(before), pieces.last()->0, pieces[i]->0);
    } else {
        lemma_holds_itself(pieces[i]->0);
        lemma_holds_around(text::concat(before), pieces[i]->0, Seq::empty(), pieces[i]->0);
    }
}

/// What stands in one part of a chain stands in the chain.
proof fn lemma_chain_holds(
    a: Seq<char>,
    b: Seq<char>,
    c: Seq<char>,
    d: Seq<char>,
    e: Seq<char>,
    f: Seq<char>,
    g: Seq<char>,
    part: Seq<char>,
)
    requires
        holds(b, part) || holds(e, part),
    ensures
        holds(a + b + c + d + e + f + g, part),
{
    if holds(b, part) {
        lemma_holds_around(a, b, c, part);
        lemma_holds_around(Seq::empty(), a + b + c, d, part);
        lemma_holds_around(Seq::empty(), a + b + c + d, e, part);
    } else {
        lemma_holds_around(a + b + c + d, e, Seq::empty(), part);
    }
    lemma_holds_around(Seq::empty(), a + b + c + d + e, f, part);
    lemma_holds_around(Seq::empty(), a + b + c + d + e + f, g, part);
}

/// Every module holds the reader of each struct and the method of each function.
pub proof fn law_nothing_is_left_out(typed: bool, m: MetaView)
    requires
        module::module(typed, m) is Some,
    ensures
        forall|i: int|
            0 <= i < m.structs.len() ==> {
                &&& (#[trigger] module::struct_reader(m.structs[i], m.structs)) is Some
                &&& holds(
                    module::module(typed, m)->0,
                    module::struct_reader(m.structs[i], m.structs)->0,
                )
            },
        forall|i: int|
            0 <= i < m.funcs.len() ==> {
                &&& (#[trigger] method::method(m.funcs[i], m.structs, typed)) is Some
                &&& holds(
                    module::module(typed, m)->0,
                    method::method(m.funcs[i], m.structs, typed)->0,
                )
            },
{
    let encodes = method::needs_encoder(m.funcs);
    let readers = m.structs.map_values(|s: StructView| module::struct_reader(s, m.structs));
    let methods = m.funcs.map_values(|f: FnView| method::method(f, m.structs, typed));
    let head = template::BANNER@ + text::when(encodes, template::IMPORT@) + "\n"@
        + module::runtime() + module::codecs(m)->0 + "// ---- per-struct field readers ----\n"@;
    assert forall|i: int| 0 <= i < m.structs.len() implies {
        &&& (#[trigger] module::struct_reader(m.structs[i], m.structs)) is Some
        &&& holds(
            module::module(typed, m)->0,
            module::struct_reader(m.structs[i], m.structs)->0,
        )
    } by {
        lemma_gathered_holds(readers, i);
        assert(readers[i] == module::struct_reader(m.structs[i], m.structs));
        lemma_chain_holds(
            head,
            text::gathered_text(readers)->0,
            module::interfaces(m.structs, typed)->0,
            module::client(typed, encodes),
            text::gathered_text(methods)->0,
            "  };\n}\n\n"@,
            module::loader(typed),
            readers[i]->0,
        );
    }
    assert forall|i: int| 0 <= i < m.funcs.len() implies {
        &&& (#[trigger] method::method(m.funcs[i], m.structs, typed)) is Some
        &&& holds(module::module(typed, m)->0, method::method(m.funcs[i], m.structs, typed)->0)
    } by {
        lemma_gathered_holds(methods, i);
        assert(methods[i] == method::method(m.funcs[i], m.structs, typed));
        lemma_chain_holds(
            head,
            text::gathered_text(readers)->0,
            module::interfaces(m.structs, typed)->0,
            module::client(typed, encodes),
            text::gathered_text(methods)->0,
            "  };\n}\n\n"@,
            module::loader(typed),
            methods[i]->0,
        );
    }
}

/// The two files for what is described by `m`; nothing, if a type cannot be
/// rendered.
pub fn render_bindings(m: &Metadata) -> (r: Option<Generated>)
    ensures
        match r {
            Some(g) => are_bindings(g, m@),
            None => !renderable(m@),
        },
{
    match (module::render_module(true, m), module::render_module(false, m)) {
        (Some(ts), Some(js)) => Some(Generated { ts, js }),
        _ => None,
    }
}

/// All that is recorded in a binary.
pub fn describe(binary: &[u8]) -> (r: Result<Metadata, String>)
    ensures
        match described(binary@) {
            Ok(want) => r matches Ok(got) && got@ == want && got.wf(),
            Err(e) => r matches Err(m) && m@ == e,
        },
{
    match wasm::extract_meta_section(binary) {
        Err(e) => Err(e),
        Ok(blob) => if blob.len() == 0 {
            Err(NO_METADATA.to_owned())
        } else {
            meta::parse_records(blob.as_slice())
        },
    }
}

/// The two files for a binary. Every type that it records has to be one that
/// can be rendered; [`try_generate_bindings`] does without that.
pub fn generate_bindings(wasm: &[u8]) -> (r: Result<Generated, String>)
    requires
        described(wasm@) matches Ok(m) ==> renderable(m),
    ensures
        match described(wasm@) {
            Ok(m) => r matches Ok(g) && are_bindings(g, m),
            Err(e) => r matches Err(got) && got@ == e,
        },
{
    match describe(wasm) {
        Err(e) => Err(e),
        Ok(m) => match render_bindings(&m) {
            Some(g) => Ok(g),
            None => vstd::pervasive::unreached(),
        },
    }
}

/// The two files for a binary; nothing, if it records a type that cannot be
/// rendered.
pub fn try_generate_bindings(wasm: &[u8]) -> (r: Option<Result<Generated, String>>)
    ensures
        match described(wasm@) {
            Ok(m) => if renderable(m) {
                r matches Some(Ok(g)) && are_bindings(g, m)
            } else {
                r is None
            },
            Err(e) => r matches Some(Err(got)) && got@ == e,
        },
{
    if let Ok(m) = describe(wasm) {
        if render_bindings(&m).is_none() {
            return None;
        }
    }
    Some(generate_bindings(wasm))
}

} // verus!
