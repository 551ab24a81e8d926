//! The section structure of a WebAssembly binary.
//!
//! A binary is an eight-byte header followed by sections. A section is an id
//! byte, the length of its content as an unsigned LEB128 number, and the
//! content. The content of a custom section (id 0) starts with a name, itself
//! prefixed by its LEB128 length. Metadata lives in the custom sections named
//! [`META_SECTION`].
use vstd::prelude::*;
use vstd::slice::slice_subrange;
use vstd::utf8::*;

verus! {

/// The first four bytes of every binary: `\0asm`.
pub const MAGIC: [u8; 4] = [0x00, 0x61, 0x73, 0x6d];

/// Length of the header that precedes the sections.
pub const HEADER_LEN: usize = 8;

/// Name of the metadata sections.
pub const META_NAME: &'static str = "__wasm_zero";

/// The bytes of [`META_NAME`].
pub const META_SECTION: [u8; 11] = [
    0x5f,
    0x5f,
    0x77,
    0x61,
    0x73,
    0x6d,
    0x5f,
    0x7a,
    0x65,
    0x72,
    0x6f,
];

/// Most bytes that a LEB128 number may take.
pub const LEB_MAX_BYTES: usize = 5;

/// A section, or the header, together with what a metadata reader wants of it.
pub struct Section<'a> {
    /// The header, or the whole section, id and length prefix included.
    pub bytes: &'a [u8],
    /// What follows the name, if the section is a metadata section.
    pub meta: Option<&'a [u8]>,
}

/// What a [`Section`] holds, as sequences.
pub struct SectionView {
    pub bytes: Seq<u8>,
    pub meta: Option<Seq<u8>>,
}

impl<'a> View for Section<'a> {
    type V = SectionView;

    open spec fn view(&self) -> SectionView {
        SectionView {
            bytes: self.bytes@,
            meta: match self.meta {
                Some(m) => Some(m@),
                None => None,
            },
        }
    }
}

/// The views of a list of sections.
pub open spec fn section_views(sections: Seq<Section<'_>>) -> Seq<SectionView> {
    sections.map_values(|s: Section<'_>| s@)
}

/// The number that `s` starts with, read as unsigned LEB128 of at most `left`
/// bytes, and how many bytes it takes. Each byte holds seven bits of the
/// number, least significant first, and all but the last have their top bit set.
pub open spec fn leb_number(s: Seq<u8>, left: nat) -> Result<(nat, nat), Seq<char>>
    decreases left,
{
    if s.len() == 0 {
        Err("truncated wasm (leb128)"@)
    } else if s[0] < 128 {
        Ok((s[0] as nat, 1))
    } else if left <= 1 {
        Err("leb128 overflow"@)
    } else {
        match leb_number(s.skip(1), (left - 1) as nat) {
            Ok((high, n)) => Ok(((s[0] - 128 + 128 * high) as nat, n + 1)),
            Err(e) => Err(e),
        }
    }
}

/// [`leb_number`] cut to 32 bits.
pub open spec fn leb32(s: Seq<u8>) -> Result<(nat, nat), Seq<char>> {
    match leb_number(s, LEB_MAX_BYTES as nat) {
        Ok((v, n)) => Ok((v % 0x1_0000_0000, n)),
        Err(e) => Err(e),
    }
}

/// What the metadata reader wants of a section's content: `content` runs from
/// the end of the section's length prefix to the end of the binary, and the
/// first `size` bytes of it belong to the section.
pub open spec fn meta_of(id: u8, content: Seq<u8>, size: nat) -> Result<
    Option<Seq<u8>>,
    Seq<char>,
> {
    if id != 0 {
        Ok(None)
    } else {
        match leb32(content) {
            Err(e) => Err(e),
            Ok((name_len, n)) => if n + name_len <= size && content.subrange(
                n as int,
                (n + name_len) as int,
            ) == META_SECTION@ {
                Ok(Some(content.subrange((n + name_len) as int, size as int)))
            } else {
                Ok(None)
            },
        }
    }
}

/// The section that the non-empty `s` starts with.
pub open spec fn first_section(s: Seq<u8>) -> Result<SectionView, Seq<char>> {
    match leb32(s.skip(1)) {
        Err(e) => Err(e),
        Ok((size, n)) => if 1 + n + size > s.len() {
            Err("truncated wasm section"@)
        } else {
            match meta_of(s[0], s.skip((1 + n) as int), size) {
                Err(e) => Err(e),
                Ok(meta) => Ok(SectionView { bytes: s.take((1 + n + size) as int), meta }),
            }
        },
    }
}

/// The sections that `s` consists of.
pub open spec fn sections_of(s: Seq<u8>) -> Result<Seq<SectionView>, Seq<char>>
    decreases s.len(),
{
    if s.len() == 0 {
        Ok(Seq::empty())
    } else {
        match first_section(s) {
            Err(e) => Err(e),
            Ok(first) => match sections_of(s.skip(first.bytes.len() as int)) {
                Err(e) => Err(e),
                Ok(rest) => Ok(seq![first] + rest),
            },
        }
    }
}

/// `wasm` starts with the header of a binary.
pub open spec fn has_header(wasm: Seq<u8>) -> bool {
    wasm.len() >= HEADER_LEN && wasm.take(4) == MAGIC@
}

/// The sections of the binary `wasm`.
pub open spec fn module_sections(wasm: Seq<u8>) -> Result<Seq<SectionView>, Seq<char>> {
    if !has_header(wasm) {
        Err("not a wasm binary"@)
    } else {
        sections_of(wasm.skip(HEADER_LEN as int))
    }
}

/// The sections at the front of `s`, up to the first one that cannot be read.
pub open spec fn readable_sections(s: Seq<u8>) -> Seq<SectionView>
    decreases s.len(),
{
    if s.len() == 0 {
        Seq::empty()
    } else {
        match first_section(s) {
            Err(_) => Seq::empty(),
            Ok(first) => seq![first] + readable_sections(s.skip(first.bytes.len() as int)),
        }
    }
}

/// What a walk over `wasm` meets: the header, and the sections up to the first
/// one that cannot be read; nothing, if there is no header.
pub open spec fn walked(wasm: Seq<u8>) -> Seq<SectionView> {
    if !has_header(wasm) {
        Seq::empty()
    } else {
        seq![SectionView { bytes: wasm.take(HEADER_LEN as int), meta: None }] + readable_sections(
            wasm.skip(HEADER_LEN as int),
        )
    }
}

/// The bytes of a list of sections, one after the other.
pub open spec fn all_bytes(sections: Seq<SectionView>) -> Seq<u8>
    decreases sections.len(),
{
    if sections.len() == 0 {
        Seq::empty()
    } else {
        sections[0].bytes + all_bytes(sections.skip(1))
    }
}

/// The bytes of the sections that hold no metadata, one after the other.
pub open spec fn plain_bytes(sections: Seq<SectionView>) -> Seq<u8>
    decreases sections.len(),
{
    if sections.len() == 0 {
        Seq::empty()
    } else {
        let before = plain_bytes(sections.drop_last());
        if sections.last().meta is None {
            before + sections.last().bytes
        } else {
            before
        }
    }
}

/// The metadata of all sections, one after the other.
pub open spec fn meta_bytes(sections: Seq<SectionView>) -> Seq<u8>
    decreases sections.len(),
{
    if sections.len() == 0 {
        Seq::empty()
    } else {
        let before = meta_bytes(sections.drop_last());
        match sections.last().meta {
            Some(m) => before + m,
            None => before,
        }
    }
}

/// `wasm` without its metadata sections.
pub open spec fn stripped(wasm: Seq<u8>) -> Result<Seq<u8>, Seq<char>> {
    match module_sections(wasm) {
        Ok(sections) => Ok(wasm.take(HEADER_LEN as int) + plain_bytes(sections)),
        Err(e) => Err(e),
    }
}

/// All metadata in `wasm`.
pub open spec fn extracted(wasm: Seq<u8>) -> Result<Seq<u8>, Seq<char>> {
    match module_sections(wasm) {
        Ok(sections) => Ok(meta_bytes(sections)),
        Err(e) => Err(e),
    }
}

/// The sections among `sections` that hold no metadata.
pub open spec fn plain_sections(sections: Seq<SectionView>) -> Seq<SectionView>
    decreases sections.len(),
{
    if sections.len() == 0 {
        Seq::empty()
    } else {
        let before = plain_sections(sections.drop_last());
        if sections.last().meta is None {
            before.push(sections.last())
        } else {
            before
        }
    }
}

/// The length of a custom section's name lies within the section, as it does
/// in every valid binary.
pub open spec fn name_inside(section: Seq<u8>) -> bool {
    section[0] == 0 ==> (leb32(section.skip(1)) matches Ok((_, n)) ==> leb32(
        section.skip((1 + n) as int),
    ) is Ok)
}

/// A LEB128 number takes at least one byte, and no more than there are.
pub proof fn lemma_leb_number_len(s: Seq<u8>, left: nat)
    ensures
        leb_number(s, left) matches Ok((_, n)) ==> 1 <= n <= s.len(),
    decreases left,
{
    if s.len() > 0 && s[0] >= 128 && left > 1 {
        lemma_leb_number_len(s.skip(1), (left - 1) as nat);
    }
}

/// Only the bytes of a LEB128 number decide its value: what follows `c` may
/// be replaced, if the number ends within `c`. If it does not, it does not
/// with any other bytes behind `c` either.
proof fn lemma_leb_local(c: Seq<u8>, t1: Seq<u8>, t2: Seq<u8>, left: nat)
    ensures
        match leb_number(c + t1, left) {
            Ok((v, n)) => if n <= c.len() {
                leb_number(c + t2, left) == Ok::<(nat, nat), Seq<char>>((v, n))
            } else {
                leb_number(c + t2, left) matches Ok((_, m)) ==> m > c.len()
            },
            Err(_) => true,
        },
    decreases left,
{
    lemma_leb_number_len(c + t2, left);
    if c.len() > 0 {
        assert((c + t1)[0] == c[0] && (c + t2)[0] == c[0]);
        assert((c + t1).skip(1) =~= c.skip(1) + t1);
        assert((c + t2).skip(1) =~= c.skip(1) + t2);
        if c[0] >= 128 && left > 1 {
            lemma_leb_local(c.skip(1), t1, t2, (left - 1) as nat);
        }
    }
}

proof fn lemma_front(first: SectionView, rest: Seq<SectionView>)
    ensures
        plain_bytes(seq![first] + rest) == (if first.meta is None {
            first.bytes
        } else {
            Seq::empty()
        }) + plain_bytes(rest),
        plain_sections(seq![first] + rest) == (if first.meta is None {
            seq![first]
        } else {
            Seq::empty()
        }) + plain_sections(rest),
        meta_bytes(seq![first] + rest) == (match first.meta {
            Some(m) => m,
            None => Seq::empty(),
        }) + meta_bytes(rest),
    decreases rest.len(),
{
    let all = seq![first] + rest;
    let m: Seq<u8> = match first.meta {
        Some(m) => m,
        None => Seq::empty(),
    };
    if rest.len() == 0 {
        assert(all.drop_last() =~= Seq::empty());
        assert(all.last() == first);
        assert(plain_bytes(all.drop_last()) =~= Seq::empty());
        assert(plain_sections(all.drop_last()) =~= Seq::empty());
        assert(meta_bytes(all.drop_last()) =~= Seq::empty());
        assert(meta_bytes(all) =~= m + meta_bytes(rest));
        assert(plain_bytes(rest) =~= Seq::empty());
        assert(plain_sections(rest) =~= Seq::empty());
        assert(plain_bytes(all) =~= (if first.meta is None {
            first.bytes
        } else {
            Seq::empty()
        }) + plain_bytes(rest));
        assert(plain_sections(all) =~= (if first.meta is None {
            seq![first]
        } else {
            Seq::empty()
        }) + plain_sections(rest));
    } else {
        lemma_front(first, rest.drop_last());
        assert(all.drop_last() =~= seq![first] + rest.drop_last());
        assert(all.last() == rest.last());
        let b: Seq<u8> = if first.meta is None {
            first.bytes
        } else {
            Seq::empty()
        };
        let f: Seq<SectionView> = if first.meta is None {
            seq![first]
        } else {
            Seq::empty()
        };
        assert(meta_bytes(all) =~= m + meta_bytes(rest));
        assert(plain_bytes(all) =~= b + plain_bytes(rest));
        assert(plain_sections(all) =~= f + plain_sections(rest));
    }
}

proof fn lemma_all_bytes(first: SectionView, rest: Seq<SectionView>)
    ensures
        all_bytes(seq![first] + rest) == first.bytes + all_bytes(rest),
{
    assert((seq![first] + rest).skip(1) =~= rest);
}

/// Where every section can be read, a walk meets them all; where one cannot, it
/// meets what comes before.
proof fn lemma_readable_sections(s: Seq<u8>)
    ensures
        sections_of(s) matches Ok(all) ==> readable_sections(s) == all && all_bytes(all) == s,
        all_bytes(readable_sections(s)).is_prefix_of(s),
    decreases s.len(),
{
    if s.len() == 0 {
        assert(s =~= Seq::empty());
    } else if let Ok(first) = first_section(s) {
        let n = first.bytes.len() as int;
        let rest = s.skip(n);
        lemma_readable_sections(rest);
        lemma_all_bytes(first, readable_sections(rest));
        assert(s =~= first.bytes + rest);
        let left = all_bytes(readable_sections(rest));
        assert(s.take(n + left.len()) =~= first.bytes + rest.take(left.len() as int));
    }
}

/// A walk over a binary meets its header and its sections. The bytes that it
/// meets are those of the binary, in order, up to where it fails.
pub proof fn law_walk_meets_the_bytes(wasm: Seq<u8>)
    ensures
        all_bytes(walked(wasm)).is_prefix_of(wasm),
        module_sections(wasm) matches Ok(all) ==> all_bytes(walked(wasm)) == wasm && walked(wasm)
            == seq![SectionView { bytes: wasm.take(HEADER_LEN as int), meta: None }] + all,
{
    if has_header(wasm) {
        let header = SectionView { bytes: wasm.take(HEADER_LEN as int), meta: None };
        let rest = wasm.skip(HEADER_LEN as int);
        lemma_readable_sections(rest);
        lemma_all_bytes(header, readable_sections(rest));
        let left = all_bytes(readable_sections(rest));
        assert(wasm =~= header.bytes + rest);
        assert(wasm.take(HEADER_LEN + left.len()) =~= header.bytes + rest.take(
            left.len() as int,
        ));
    }
}

/// The sections that are written under the name are those that are read.
pub proof fn law_section_has_one_name()
    ensures
        encode_utf8(META_NAME@) == META_SECTION@,
{
    reveal_strlit("__wasm_zero");
    assert(is_ascii_chars(META_NAME@));
    is_ascii_chars_encode_utf8(META_NAME@);
    let bytes = encode_utf8(META_NAME@);
    assert forall|i: int| 0 <= i < bytes.len() implies bytes[i] == META_SECTION@[i] by {
        assert(bytes[i] == META_NAME@[i] as u8);
    }
    assert(bytes =~= META_SECTION@);
}

/// `n` as an unsigned LEB128 number of `k` bytes: seven bits in each, the least
/// significant first, and the top bit set in all but the last.
pub open spec fn leb_bytes(n: nat, k: nat) -> Seq<u8>
    decreases k,
{
    if k <= 1 {
        seq![n as u8]
    } else {
        seq![(128 + n % 128) as u8] + leb_bytes(n / 128, (k - 1) as nat)
    }
}

/// How many numbers there are in `k` times seven bits.
pub open spec fn leb_room(k: nat) -> nat
    decreases k,
{
    if k == 0 {
        1
    } else {
        128 * leb_room((k - 1) as nat)
    }
}

/// `n` is a length that a binary can state in `k` bytes.
pub open spec fn leb_holds(n: nat, k: nat) -> bool {
    1 <= k <= 5 && n < leb_room(k) && n < 0x1_0000_0000
}

/// A section as a linker writes it, its length in `k` bytes.
pub open spec fn section_bytes(id: u8, k: nat, content: Seq<u8>) -> Seq<u8> {
    seq![id] + leb_bytes(content.len(), k) + content
}

/// The content of a custom section as a linker writes it, the length of its name
/// in `k` bytes.
pub open spec fn custom_content(k: nat, name: Seq<u8>, data: Seq<u8>) -> Seq<u8> {
    leb_bytes(name.len(), k) + name + data
}

proof fn lemma_leb_bytes(n: nat, k: nat, rest: Seq<u8>, left: nat)
    requires
        1 <= k <= left,
        n < leb_room(k),
    ensures
        leb_bytes(n, k).len() == k,
        leb_number(leb_bytes(n, k) + rest, left) == Ok::<(nat, nat), Seq<char>>((n, k)),
    decreases k,
{
    let s = leb_bytes(n, k) + rest;
    if k == 1 {
        reveal_with_fuel(leb_room, 2);
        assert(s[0] == n as u8);
    } else {
        let more = leb_bytes(n / 128, (k - 1) as nat);
        assert(leb_room(k) == 128 * leb_room((k - 1) as nat));
        lemma_leb_bytes(n / 128, (k - 1) as nat, rest, (left - 1) as nat);
        assert(s.skip(1) =~= more + rest);
        assert(s[0] == (128 + n % 128) as u8);
    }
}

/// A number is read back from the bytes that state it, however many they are and
/// whatever follows them; of one that takes more than 32 bits, the lower 32.
pub proof fn law_number_is_read_back(n: nat, k: nat, rest: Seq<u8>)
    requires
        1 <= k <= 5,
        n < leb_room(k),
    ensures
        leb_bytes(n, k).len() == k,
        leb32(leb_bytes(n, k) + rest) == Ok::<(nat, nat), Seq<char>>((n % 0x1_0000_0000, k)),
{
    lemma_leb_bytes(n, k, rest, 5);
}

/// Bytes that go on and on state no number: five of them are too many, and fewer
/// are not enough.
pub proof fn law_endless_number_is_refused(s: Seq<u8>)
    requires
        forall|i: int| 0 <= i < s.len() && i < 5 ==> #[trigger] s[i] >= 128,
    ensures
        s.len() >= 5 ==> leb32(s) == Err::<(nat, nat), Seq<char>>("leb128 overflow"@),
        s.len() < 5 ==> leb32(s) == Err::<(nat, nat), Seq<char>>("truncated wasm (leb128)"@),
{
    lemma_endless(s, 5);
}

proof fn lemma_endless(s: Seq<u8>, left: nat)
    requires
        left >= 1,
        forall|i: int| 0 <= i < s.len() && i < left ==> #[trigger] s[i] >= 128,
    ensures
        leb_number(s, left) == Err::<(nat, nat), Seq<char>>(
            if s.len() >= left {
                "leb128 overflow"@
            } else {
                "truncated wasm (leb128)"@
            },
        ),
    decreases left,
{
    if s.len() > 0 && left > 1 {
        assert forall|i: int|
            0 <= i < s.skip(1).len() && i < left - 1 implies #[trigger] s.skip(1)[i] >= 128 by {
            assert(s.skip(1)[i] == s[i + 1]);
        }
        lemma_endless(s.skip(1), (left - 1) as nat);
    }
}

proof fn lemma_stated_length(n: nat, k: nat, rest: Seq<u8>)
    requires
        leb_holds(n, k),
    ensures
        leb_bytes(n, k).len() == k,
        leb32(leb_bytes(n, k) + rest) == Ok::<(nat, nat), Seq<char>>((n, k)),
{
    lemma_leb_bytes(n, k, rest, 5);
}

/// A section that is no custom section is met as it was written, and holds no
/// metadata.
pub proof fn law_section_is_met(id: u8, k: nat, content: Seq<u8>, rest: Seq<u8>)
    requires
        id != 0,
        leb_holds(content.len(), k),
    ensures
        first_section(section_bytes(id, k, content) + rest) == Ok::<SectionView, Seq<char>>(
            SectionView { bytes: section_bytes(id, k, content), meta: None },
        ),
{
    let s = section_bytes(id, k, content) + rest;
    lemma_stated_length(content.len(), k, content + rest);
    assert(s.skip(1) =~= leb_bytes(content.len(), k) + (content + rest));
    assert(s[0] == id);
    assert(s.take((1 + k + content.len()) as int) =~= section_bytes(id, k, content));
}

/// A custom section is met as it was written. It holds metadata if and only if it
/// has the name of the metadata sections, whatever its length, and the metadata
/// is all that follows the name.
pub proof fn law_custom_section_is_met(
    k: nat,
    j: nat,
    name: Seq<u8>,
    data: Seq<u8>,
    rest: Seq<u8>,
)
    requires
        leb_holds(name.len(), j),
        leb_holds(custom_content(j, name, data).len(), k),
    ensures
        first_section(section_bytes(0, k, custom_content(j, name, data)) + rest) == Ok::<
            SectionView,
            Seq<char>,
        >(
            SectionView {
                bytes: section_bytes(0, k, custom_content(j, name, data)),
                meta: if name == encode_utf8("__wasm_zero"@) {
                    Some(data)
                } else {
                    None
                },
            },
        ),
{
    let content = custom_content(j, name, data);
    let section = section_bytes(0, k, content);
    let s = section + rest;
    law_section_has_one_name();
    lemma_stated_length(content.len(), k, content + rest);
    assert(s.skip(1) =~= leb_bytes(content.len(), k) + (content + rest));
    assert(s[0] == 0);
    assert(s.take((1 + k + content.len()) as int) =~= section);
    let inner = s.skip((1 + k) as int);
    lemma_stated_length(name.len(), j, name + data + rest);
    assert(inner =~= leb_bytes(name.len(), j) + (name + data + rest));
    assert(inner.subrange(j as int, (j + name.len()) as int) =~= name);
    assert(inner.subrange((j + name.len()) as int, content.len() as int) =~= data);
}

/// A section that states more bytes than there are is refused.
pub proof fn law_cut_section_is_refused(id: u8, k: nat, n: nat, content: Seq<u8>)
    requires
        leb_holds(n, k),
        content.len() < n,
    ensures
        first_section(seq![id] + leb_bytes(n, k) + content) == Err::<SectionView, Seq<char>>(
            "truncated wasm section"@,
        ),
{
    let s = seq![id] + leb_bytes(n, k) + content;
    lemma_stated_length(n, k, content);
    assert(s.skip(1) =~= leb_bytes(n, k) + content);
}

/// A section stays what it is, whatever comes behind the sections it is among.
proof fn lemma_first_section_stays(s: Seq<u8>, more: Seq<u8>)
    requires
        s.len() > 0,
        first_section(s) is Ok,
    ensures
        first_section(s + more) == first_section(s),
        1 <= first_section(s)->Ok_0.bytes.len() <= s.len(),
{
    let none = Seq::<u8>::empty();
    let t = s + more;
    assert(t[0] == s[0]);
    assert(t.skip(1) =~= s.skip(1) + more);
    assert(s.skip(1) + none =~= s.skip(1));
    lemma_leb_number_len(s.skip(1), 5);
    lemma_leb_local(s.skip(1), none, more, 5);
    let (size, n) = leb32(s.skip(1))->Ok_0;
    let c = s.skip((1 + n) as int);
    assert(t.skip((1 + n) as int) =~= c + more);
    assert(t.take((1 + n + size) as int) =~= s.take((1 + n + size) as int));
    if s[0] == 0 {
        assert(c + none =~= c);
        lemma_leb_number_len(c, 5);
        lemma_leb_local(c, none, more, 5);
        let (name_len, m) = leb32(c)->Ok_0;
        if m + name_len <= size {
            assert((c + more).subrange(m as int, (m + name_len) as int) =~= c.subrange(
                m as int,
                (m + name_len) as int,
            ));
            assert((c + more).subrange((m + name_len) as int, size as int) =~= c.subrange(
                (m + name_len) as int,
                size as int,
            ));
        }
    }
}

/// Sections follow each other: where `a` can be read, the sections of `a + b` are
/// those of `a` and then those of `b`.
pub proof fn law_sections_concatenate(a: Seq<u8>, b: Seq<u8>)
    requires
        sections_of(a) is Ok,
    ensures
        sections_of(a + b) == match sections_of(b) {
            Ok(rest) => Ok::<Seq<SectionView>, Seq<char>>(sections_of(a)->Ok_0 + rest),
            Err(e) => Err(e),
        },
    decreases a.len(),
{
    if a.len() == 0 {
        assert(a + b =~= b);
        if let Ok(rest) = sections_of(b) {
            assert(sections_of(a)->Ok_0 + rest =~= rest);
        }
    } else {
        let first = first_section(a)->Ok_0;
        let n = first.bytes.len() as int;
        lemma_first_section_stays(a, b);
        assert((a + b).skip(n) =~= a.skip(n) + b);
        law_sections_concatenate(a.skip(n), b);
        if let Ok(rest) = sections_of(b) {
            let mid = sections_of(a.skip(n))->Ok_0;
            assert(seq![first] + (mid + rest) =~= (seq![first] + mid) + rest);
        }
    }
}

proof fn lemma_bytes_concatenate(a: Seq<SectionView>, b: Seq<SectionView>)
    ensures
        plain_bytes(a + b) == plain_bytes(a) + plain_bytes(b),
        meta_bytes(a + b) == meta_bytes(a) + meta_bytes(b),
    decreases b.len(),
{
    if b.len() == 0 {
        assert(a + b =~= a);
        assert(plain_bytes(a) + plain_bytes(b) =~= plain_bytes(a));
        assert(meta_bytes(a) + meta_bytes(b) =~= meta_bytes(a));
    } else {
        assert((a + b).drop_last() =~= a + b.drop_last());
        assert((a + b).last() == b.last());
        lemma_bytes_concatenate(a, b.drop_last());
        assert(plain_bytes(a + b) =~= plain_bytes(a) + plain_bytes(b));
        assert(meta_bytes(a + b) =~= meta_bytes(a) + meta_bytes(b));
    }
}

/// The header of a binary: the four bytes that every binary starts with, and
/// the version.
pub open spec fn is_header(header: Seq<u8>) -> bool {
    header.len() == 8 && header.take(4) == seq![0u8, 0x61, 0x73, 0x6d]
}

proof fn lemma_behind_header(header: Seq<u8>, sections: Seq<u8>)
    requires
        is_header(header),
    ensures
        module_sections(header + sections) == sections_of(sections),
        (header + sections).take(8) == header,
{
    let wasm = header + sections;
    assert(wasm.take(4) =~= header.take(4));
    assert(MAGIC@ =~= seq![0u8, 0x61, 0x73, 0x6d]);
    assert(wasm.skip(8) =~= sections);
    assert(wasm.take(8) =~= header);
}

/// A header alone holds no metadata and is its own stripped form, and what does
/// not start with a header is no binary.
pub proof fn law_header_alone(header: Seq<u8>, other: Seq<u8>)
    requires
        is_header(header),
        other.len() < 8 || other.take(4) != seq![0u8, 0x61, 0x73, 0x6d],
    ensures
        extracted(header) == Ok::<Seq<u8>, Seq<char>>(Seq::empty()),
        stripped(header) == Ok::<Seq<u8>, Seq<char>>(header),
        extracted(other) == Err::<Seq<u8>, Seq<char>>("not a wasm binary"@),
        stripped(other) == Err::<Seq<u8>, Seq<char>>("not a wasm binary"@),
{
    let none = Seq::<u8>::empty();
    assert(header + none =~= header);
    lemma_behind_header(header, none);
    assert(MAGIC@ =~= seq![0u8, 0x61, 0x73, 0x6d]);
    assert(stripped(header)->Ok_0 =~= header);
}

/// The section between `front` and `back` is there, and the binaries without it
/// can be read.
#[verifier::rlimit(40)]
proof fn lemma_between(
    header: Seq<u8>,
    front: Seq<u8>,
    section: Seq<u8>,
    back: Seq<u8>,
    met: SectionView,
)
    requires
        is_header(header),
        extracted(header + front) is Ok,
        extracted(header + back) is Ok,
        section.len() > 0,
        met.bytes == section,
        first_section(section + Seq::<u8>::empty()) == Ok::<SectionView, Seq<char>>(met),
    ensures
        ({
            let found: Seq<u8> = match met.meta {
                Some(m) => m,
                None => Seq::empty(),
            };
            let kept: Seq<u8> = if met.meta is None {
                section
            } else {
                Seq::empty()
            };
            &&& extracted(header + front + section + back) == Ok::<Seq<u8>, Seq<char>>(
                extracted(header + front)->Ok_0 + found + extracted(header + back)->Ok_0,
            )
            &&& stripped(header + front + section + back) == Ok::<Seq<u8>, Seq<char>>(
                stripped(header + front)->Ok_0 + kept + stripped(header + back)->Ok_0.skip(8),
            )
            &&& stripped(header + front + back) == Ok::<Seq<u8>, Seq<char>>(
                stripped(header + front)->Ok_0 + stripped(header + back)->Ok_0.skip(8),
            )
        }),
{
    lemma_behind_header(header, front);
    lemma_behind_header(header, back);
    let (f, b) = (sections_of(front)->Ok_0, sections_of(back)->Ok_0);
    lemma_sections_between(front, section, back, met);
    assert(header + front + section + back =~= header + (front + (section + back)));
    assert(header + front + back =~= header + (front + back));
    lemma_behind_header(header, front + (section + back));
    lemma_behind_header(header, front + back);
    let found: Seq<u8> = match met.meta {
        Some(m) => m,
        None => Seq::empty(),
    };
    let kept: Seq<u8> = if met.meta is None {
        section
    } else {
        Seq::empty()
    };
    assert(stripped(header + back)->Ok_0.skip(8) == plain_bytes(b)) by {
        assert((header + plain_bytes(b)).skip(8) =~= plain_bytes(b));
    }
    lemma_assoc(header, plain_bytes(f), kept + plain_bytes(b));
    lemma_assoc(header + plain_bytes(f), kept, plain_bytes(b));
    lemma_assoc(header, plain_bytes(f), plain_bytes(b));
    lemma_assoc(meta_bytes(f), found, meta_bytes(b));
}

proof fn lemma_assoc(a: Seq<u8>, b: Seq<u8>, c: Seq<u8>)
    ensures
        a + b + c == a + (b + c),
{
    assert(a + b + c =~= a + (b + c));
}

#[verifier::rlimit(40)]
proof fn lemma_sections_between(
    front: Seq<u8>,
    section: Seq<u8>,
    back: Seq<u8>,
    met: SectionView,
)
    requires
        sections_of(front) is Ok,
        sections_of(back) is Ok,
        section.len() > 0,
        met.bytes == section,
        first_section(section + Seq::<u8>::empty()) == Ok::<SectionView, Seq<char>>(met),
    ensures
        ({
            let (f, b) = (sections_of(front)->Ok_0, sections_of(back)->Ok_0);
            let with = sections_of(front + (section + back));
            let without = sections_of(front + back);
            &&& with is Ok
            &&& without is Ok
            &&& meta_bytes(with->Ok_0) == meta_bytes(f) + ((match met.meta {
                Some(m) => m,
                None => Seq::empty(),
            }) + meta_bytes(b))
            &&& plain_bytes(with->Ok_0) == plain_bytes(f) + ((if met.meta is None {
                section
            } else {
                Seq::empty()
            }) + plain_bytes(b))
            &&& plain_bytes(without->Ok_0) == plain_bytes(f) + plain_bytes(b)
        }),
{
    let none = Seq::<u8>::empty();
    let (f, b) = (sections_of(front)->Ok_0, sections_of(back)->Ok_0);
    assert(section + none =~= section);
    assert(section.skip(met.bytes.len() as int) =~= none);
    assert(sections_of(none) == Ok::<Seq<SectionView>, Seq<char>>(Seq::empty()));
    assert(seq![met] + Seq::<SectionView>::empty() =~= seq![met]);
    assert(sections_of(section) == Ok::<Seq<SectionView>, Seq<char>>(seq![met]));
    law_sections_concatenate(section, back);
    law_sections_concatenate(front, section + back);
    law_sections_concatenate(front, back);
    lemma_bytes_concatenate(f, seq![met] + b);
    lemma_bytes_concatenate(f, b);
    lemma_front(met, b);
}

/// What is put into a binary is found in it. A binary with a metadata section
/// anywhere among its sections yields the data of the section, whatever it is
/// and however long, between the metadata of the sections before and behind it;
/// and the stripped binary is that of the binary without the section.
pub proof fn law_metadata_is_found(
    header: Seq<u8>,
    front: Seq<u8>,
    k: nat,
    j: nat,
    data: Seq<u8>,
    back: Seq<u8>,
)
    requires
        is_header(header),
        extracted(header + front) is Ok,
        extracted(header + back) is Ok,
        leb_holds(11, j),
        leb_holds(j + 11 + data.len(), k),
    ensures
        ({
            let section = section_bytes(
                0,
                k,
                custom_content(j, encode_utf8("__wasm_zero"@), data),
            );
            let binary = header + front + section + back;
            &&& extracted(binary) == Ok::<Seq<u8>, Seq<char>>(
                extracted(header + front)->Ok_0 + data + extracted(header + back)->Ok_0,
            )
            &&& stripped(binary) == stripped(header + front + back)
            &&& stripped(binary) is Ok
        }),
{
    let name = encode_utf8("__wasm_zero"@);
    law_section_has_one_name();
    lemma_stated_length(11, j, Seq::empty());
    let content = custom_content(j, name, data);
    let section = section_bytes(0, k, content);
    law_custom_section_is_met(k, j, name, data, Seq::empty());
    let met = SectionView { bytes: section, meta: Some(data) };
    lemma_between(header, front, section, back, met);
    assert(stripped(header + front)->Ok_0 + Seq::<u8>::empty() =~= stripped(header + front)->Ok_0);
}

/// What else is in a binary stays in it: a custom section of another name, or
/// a section that is no custom section, adds nothing to the metadata and stands
/// in the stripped binary as it was, where it was.
pub proof fn law_other_sections_stay(
    header: Seq<u8>,
    front: Seq<u8>,
    id: u8,
    k: nat,
    j: nat,
    name: Seq<u8>,
    data: Seq<u8>,
    back: Seq<u8>,
)
    requires
        is_header(header),
        extracted(header + front) is Ok,
        extracted(header + back) is Ok,
        leb_holds(name.len(), j),
        leb_holds(custom_content(j, name, data).len(), k),
        id != 0 || name != encode_utf8("__wasm_zero"@),
    ensures
        ({
            let section = section_bytes(id, k, custom_content(j, name, data));
            let binary = header + front + section + back;
            &&& extracted(binary) == Ok::<Seq<u8>, Seq<char>>(
                extracted(header + front)->Ok_0 + extracted(header + back)->Ok_0,
            )
            &&& stripped(binary) == Ok::<Seq<u8>, Seq<char>>(
                stripped(header + front)->Ok_0 + section + stripped(header + back)->Ok_0.skip(8),
            )
        }),
{
    let content = custom_content(j, name, data);
    let section = section_bytes(id, k, content);
    if id == 0 {
        law_custom_section_is_met(k, j, name, data, Seq::empty());
    } else {
        law_section_is_met(id, k, content, Seq::empty());
    }
    let met = SectionView { bytes: section, meta: None };
    lemma_between(header, front, section, back, met);
    assert(extracted(header + front)->Ok_0 + Seq::<u8>::empty() =~= extracted(
        header + front,
    )->Ok_0);
}

/// Walking the bytes that are left once the metadata sections of `s` are taken
/// out meets the other sections, and can only fail where a name length runs
/// over the end of its section.
proof fn lemma_plain_walk(s: Seq<u8>)
    requires
        sections_of(s) is Ok,
    ensures
        ({
            let all = sections_of(s)->Ok_0;
            let left = sections_of(plain_bytes(all));
            &&& left is Ok ==> left == Ok::<Seq<SectionView>, Seq<char>>(plain_sections(all))
            &&& (forall|i: int| 0 <= i < all.len() ==> name_inside(#[trigger] all[i].bytes))
                ==> left is Ok
        }),
    decreases s.len(),
{
    let all = sections_of(s)->Ok_0;
    if s.len() == 0 {
        assert(plain_bytes(all) =~= Seq::empty());
        assert(plain_sections(all) =~= Seq::empty());
        return ;
    }
    let first = first_section(s)->Ok_0;
    let k = first.bytes.len() as int;
    let rest = sections_of(s.skip(k))->Ok_0;
    assert(all == seq![first] + rest);
    lemma_leb_number_len(s.skip(1), LEB_MAX_BYTES as nat);
    lemma_plain_walk(s.skip(k));
    lemma_front(first, rest);
    assert forall|i: int| 0 <= i < rest.len() implies all[i + 1] == rest[i] by {}
    assert(all[0] == first);
    assert((forall|i: int| 0 <= i < all.len() ==> name_inside(#[trigger] all[i].bytes)) ==> (forall|
        i: int,
    |
        0 <= i < rest.len() ==> name_inside(#[trigger] rest[i].bytes))) by {
        if forall|i: int| 0 <= i < all.len() ==> name_inside(#[trigger] all[i].bytes) {
            assert forall|i: int| 0 <= i < rest.len() implies name_inside(
                #[trigger] rest[i].bytes,
            ) by {
                assert(all[i + 1] == rest[i]);
            }
        }
    }
    if first.meta is Some {
        assert(plain_bytes(all) =~= plain_bytes(rest));
        assert(plain_sections(all) =~= plain_sections(rest));
        return ;
    }
    let r = plain_bytes(rest);
    let p = plain_bytes(all);
    assert(p == first.bytes + r);
    let (size, n) = leb32(s.skip(1))->Ok_0;
    let t = s.skip(k);
    // The length prefix is the same.
    assert(s =~= first.bytes + t);
    let head = first.bytes.skip(1);
    assert(s.skip(1) =~= head + t);
    assert(p.skip(1) =~= head + r);
    lemma_leb_local(head, t, r, LEB_MAX_BYTES as nat);
    assert(leb32(p.skip(1)) == leb32(s.skip(1)));
    assert(p[0] == s[0]);
    // So is the content.
    let c = first.bytes.skip((1 + n) as int);
    assert(c.len() == size);
    assert(s.skip((1 + n) as int) =~= c + t);
    assert(p.skip((1 + n) as int) =~= c + r);
    assert(c + Seq::<u8>::empty() =~= c);
    lemma_leb_local(c, t, r, LEB_MAX_BYTES as nat);
    lemma_leb_number_len(c + t, LEB_MAX_BYTES as nat);
    assert(p.take(k) =~= first.bytes);
    assert(p.skip(k) =~= r);
    if s[0] == 0 {
        if let Ok((name_len, m)) = leb32(c + t) {
            if m + name_len <= size {
                assert((c + t).subrange(m as int, (m + name_len) as int) =~= c.subrange(
                    m as int,
                    (m + name_len) as int,
                ));
                assert((c + r).subrange(m as int, (m + name_len) as int) =~= c.subrange(
                    m as int,
                    (m + name_len) as int,
                ));
            }
        }
    }
    assert(meta_of(p[0], c + r, size) is Ok ==> meta_of(p[0], c + r, size) == Ok::<
        Option<Seq<u8>>,
        Seq<char>,
    >(None));
    assert(first_section(p) is Ok ==> first_section(p) == Ok::<SectionView, Seq<char>>(first));
    assert(plain_sections(all) =~= seq![first] + plain_sections(rest));
    if forall|i: int| 0 <= i < all.len() ==> name_inside(#[trigger] all[i].bytes) {
        assert(name_inside(all[0].bytes));
        lemma_leb_local(head, t, Seq::empty(), LEB_MAX_BYTES as nat);
        assert(head + Seq::<u8>::empty() =~= head);
        lemma_leb_local(c, Seq::empty(), r, LEB_MAX_BYTES as nat);
        lemma_leb_number_len(c, LEB_MAX_BYTES as nat);
        assert(first_section(p) is Ok);
    }
}

proof fn lemma_plain_sections(sections: Seq<SectionView>)
    ensures
        plain_sections(plain_sections(sections)) == plain_sections(sections),
        plain_bytes(plain_sections(sections)) == plain_bytes(sections),
        meta_bytes(plain_sections(sections)) == Seq::<u8>::empty(),
    decreases sections.len(),
{
    if sections.len() > 0 {
        lemma_plain_sections(sections.drop_last());
        let before = plain_sections(sections.drop_last());
        if sections.last().meta is None {
            assert(before.push(sections.last()).drop_last() =~= before);
        }
    }
}

proof fn lemma_sections_cover(s: Seq<u8>)
    requires
        sections_of(s) is Ok,
        forall|i: int|
            0 <= i < sections_of(s)->Ok_0.len() ==> (#[trigger] sections_of(
                s,
            )->Ok_0[i]).meta is None,
    ensures
        plain_bytes(sections_of(s)->Ok_0) == s,
    decreases s.len(),
{
    let all = sections_of(s)->Ok_0;
    if s.len() == 0 {
        assert(plain_bytes(all) =~= s);
    } else {
        let first = first_section(s)->Ok_0;
        let k = first.bytes.len() as int;
        let rest = sections_of(s.skip(k))->Ok_0;
        assert(all == seq![first] + rest);
        assert(all[0] == first);
        assert forall|i: int| 0 <= i < rest.len() implies (#[trigger] rest[i]).meta is None by {
            assert(all[i + 1] == rest[i]);
        }
        lemma_sections_cover(s.skip(k));
        lemma_front(first, rest);
        assert(first.bytes + s.skip(k) =~= s);
    }
}

/// Stripping takes out the metadata sections and nothing else: the sections of
/// the stripped binary are the others, unchanged and in order. So no metadata
/// is left in it, and stripping it again changes nothing.
///
/// Left out are the binaries that stripping makes unreadable. They are invalid
/// to begin with: one ends in a metadata section behind a custom section of
/// length zero, whose missing name length was read out of its neighbour.
pub proof fn law_strip_keeps_the_other_sections(wasm: Seq<u8>)
    requires
        stripped(wasm) is Ok,
        module_sections(stripped(wasm)->Ok_0) is Ok,
    ensures
        module_sections(stripped(wasm)->Ok_0)->Ok_0 == plain_sections(module_sections(wasm)->Ok_0),
        extracted(stripped(wasm)->Ok_0) == Ok::<Seq<u8>, Seq<char>>(Seq::empty()),
        stripped(stripped(wasm)->Ok_0) == stripped(wasm),
{
    let out = stripped(wasm)->Ok_0;
    let all = module_sections(wasm)->Ok_0;
    assert(out.skip(HEADER_LEN as int) =~= plain_bytes(all));
    assert(out.take(HEADER_LEN as int) =~= wasm.take(HEADER_LEN as int));
    lemma_plain_walk(wasm.skip(HEADER_LEN as int));
    lemma_plain_sections(all);
}

/// Stripping a binary in which every name length lies within its section gives
/// a readable binary.
pub proof fn law_strip_keeps_the_binary_readable(wasm: Seq<u8>)
    requires
        module_sections(wasm) is Ok,
        forall|i: int|
            0 <= i < module_sections(wasm)->Ok_0.len() ==> name_inside(
                #[trigger] module_sections(wasm)->Ok_0[i].bytes,
            ),
    ensures
        stripped(wasm) is Ok,
        module_sections(stripped(wasm)->Ok_0) is Ok,
{
    let out = stripped(wasm)->Ok_0;
    assert(out.skip(HEADER_LEN as int) =~= plain_bytes(module_sections(wasm)->Ok_0));
    assert(out.take(4) =~= wasm.take(4));
    lemma_plain_walk(wasm.skip(HEADER_LEN as int));
}

/// A binary without metadata sections is its own stripped form.
pub proof fn law_strip_without_metadata_changes_nothing(wasm: Seq<u8>)
    requires
        module_sections(wasm) is Ok,
        forall|i: int|
            0 <= i < module_sections(wasm)->Ok_0.len() ==> (#[trigger] module_sections(
                wasm,
            )->Ok_0[i]).meta is None,
    ensures
        stripped(wasm) == Ok::<Seq<u8>, Seq<char>>(wasm),
        extracted(wasm) == Ok::<Seq<u8>, Seq<char>>(Seq::empty()),
{
    let all = module_sections(wasm)->Ok_0;
    lemma_sections_cover(wasm.skip(HEADER_LEN as int));
    assert(wasm.take(HEADER_LEN as int) + wasm.skip(HEADER_LEN as int) =~= wasm);
    lemma_no_meta(all);
}

proof fn lemma_no_meta(sections: Seq<SectionView>)
    requires
        forall|i: int| 0 <= i < sections.len() ==> (#[trigger] sections[i]).meta is None,
    ensures
        meta_bytes(sections) == Seq::<u8>::empty(),
    decreases sections.len(),
{
    if sections.len() > 0 {
        lemma_no_meta(sections.drop_last());
    }
}

/// What `bytes` holds from `pos` on: nothing, if it ends before.
pub open spec fn tail(bytes: Seq<u8>, pos: int) -> Seq<u8> {
    if pos <= bytes.len() {
        bytes.skip(pos)
    } else {
        Seq::empty()
    }
}

/// How many bytes at the start of `s` are looked at before it is clear that
/// there is no number.
pub open spec fn looked_at(s: Seq<u8>) -> nat {
    if s.len() < LEB_MAX_BYTES {
        s.len()
    } else {
        LEB_MAX_BYTES as nat
    }
}

/// Where there is no number, all bytes are looked at, but no more than five.
pub proof fn law_five_bytes_are_looked_at(s: Seq<u8>)
    ensures
        s.len() <= 5 ==> looked_at(s) == s.len(),
        s.len() > 5 ==> looked_at(s) == 5,
{
}

/// Reads the LEB128 number at `*pos` and moves `*pos` behind it. Where there is
/// none, `*pos` ends up behind the bytes that were looked at.
pub fn leb_u32(bytes: &[u8], pos: &mut usize) -> (r: Result<u32, String>)
    ensures
        match leb32(tail(bytes@, *old(pos) as int)) {
            Ok((v, n)) => r == Ok::<u32, String>(v as u32) && *final(pos) == *old(pos) + n
                && *final(pos) <= bytes@.len(),
            Err(e) => (r matches Err(m) && m@ == e) && *final(pos) == *old(pos) + looked_at(
                tail(bytes@, *old(pos) as int),
            ),
        },
{
    let start: usize = *pos;
    if start > bytes.len() {
        return Err("truncated wasm (leb128)".to_owned());
    }
    let mut value: u64 = 0;
    let mut unit: u64 = 1;
    let mut left: usize = LEB_MAX_BYTES;
    let ghost whole = leb_number(bytes@.skip(start as int), LEB_MAX_BYTES as nat);
    proof {
        lemma_leb_number_len(bytes@.skip(start as int), LEB_MAX_BYTES as nat);
    }
    loop
        invariant
            start == *old(pos),
            start <= *pos <= bytes@.len(),
            1 <= left <= LEB_MAX_BYTES,
            *pos == start + (LEB_MAX_BYTES - left),
            left == 5 ==> unit == 1,
            left == 4 ==> unit == 128,
            left == 3 ==> unit == 16384,
            left == 2 ==> unit == 2097152,
            left == 1 ==> unit == 268435456,
            value < unit,
            whole == leb_number(bytes@.skip(start as int), LEB_MAX_BYTES as nat),
            whole matches Ok((_, n)) ==> n <= bytes@.len() - start,
            match leb_number(bytes@.skip(*pos as int), left as nat) {
                Ok((v, n)) => whole == Ok::<(nat, nat), Seq<char>>(
                    ((value + unit * v) as nat, (n + (LEB_MAX_BYTES - left)) as nat),
                ),
                Err(e) => whole == Err::<(nat, nat), Seq<char>>(e),
            },
        decreases left,
    {
        let ghost here = bytes@.skip(*pos as int);
        if *pos >= bytes.len() {
            return Err("truncated wasm (leb128)".to_owned());
        }
        let b: u8 = bytes[*pos];
        assert(here[0] == b);
        let low: u64 = (b % 128) as u64;
        assert(unit * low <= 268435456 * 127) by (nonlinear_arith)
            requires
                unit <= 268435456,
                low <= 127,
        ;
        assert(unit * (low + 1) == unit * low + unit) by (nonlinear_arith);
        assert(unit * (low + 1) <= unit * 128) by (nonlinear_arith)
            requires
                low <= 127,
        ;
        let ghost before = value;
        value = value + unit * low;
        *pos = *pos + 1;
        if b < 128 {
            return Ok((value % 0x1_0000_0000) as u32);
        }
        left = left - 1;
        if left == 0 {
            return Err("leb128 overflow".to_owned());
        }
        assert(here.skip(1) =~= bytes@.skip(*pos as int));
        proof {
            if let Ok((v, n)) = leb_number(bytes@.skip(*pos as int), left as nat) {
                assert(before + unit * (low + 128 * v) == before + unit * low + (unit * 128) * v)
                    by (nonlinear_arith);
            }
        }
        unit = unit * 128;
    }
}

/// Walks over `wasm`: its header and its sections, in order, up to the first one
/// that cannot be read, and why that one cannot.
#[verifier::rlimit(60)]
pub fn for_each_section<'a>(wasm: &'a [u8]) -> (r: (Vec<Section<'a>>, Result<(), String>))
    ensures
        section_views(r.0@) == walked(wasm@),
        match module_sections(wasm@) {
            Ok(_) => r.1 is Ok,
            Err(e) => r.1 matches Err(m) && m@ == e,
        },
{
    let mut out: Vec<Section<'a>> = Vec::new();
    assert(section_views(out@) =~= Seq::empty());
    if wasm.len() < HEADER_LEN || wasm[0] != MAGIC[0] || wasm[1] != MAGIC[1] || wasm[2] != MAGIC[2]
        || wasm[3] != MAGIC[3] {
        proof {
            if has_header(wasm@) {
                assert(wasm@.take(4)[0] == MAGIC@[0]);
                assert(wasm@.take(4)[1] == MAGIC@[1]);
                assert(wasm@.take(4)[2] == MAGIC@[2]);
                assert(wasm@.take(4)[3] == MAGIC@[3]);
            }
        }
        return (out, Err("not a wasm binary".to_owned()));
    }
    assert(wasm@.take(4) =~= MAGIC@);
    let header = Section { bytes: slice_subrange(wasm, 0, HEADER_LEN), meta: None };
    out.push(header);
    assert(header@.bytes =~= wasm@.take(HEADER_LEN as int));
    assert(section_views(out@) =~= seq![header@]);
    let mut pos: usize = HEADER_LEN;
    let ghost whole = module_sections(wasm@);
    let ghost all = walked(wasm@);
    while pos < wasm.len()
        invariant
            HEADER_LEN <= pos <= wasm@.len(),
            whole == module_sections(wasm@),
            all == walked(wasm@),
            all == section_views(out@) + readable_sections(wasm@.skip(pos as int)),
            match sections_of(wasm@.skip(pos as int)) {
                Ok(_) => whole is Ok,
                Err(e) => whole == Err::<Seq<SectionView>, Seq<char>>(e),
            },
        decreases wasm@.len() - pos,
    {
        let ghost s = wasm@.skip(pos as int);
        let ghost met = section_views(out@);
        assert(met + Seq::<SectionView>::empty() =~= met);
        let start: usize = pos;
        let id: u8 = wasm[pos];
        assert(id == s[0]);
        pos = pos + 1;
        assert(wasm@.skip(pos as int) =~= s.skip(1));
        proof {
            lemma_leb_number_len(s.skip(1), LEB_MAX_BYTES as nat);
        }
        let size: usize = match leb_u32(wasm, &mut pos) {
            Ok(size) => size as usize,
            Err(e) => {
                return (out, Err(e));
            },
        };
        assert(wasm@.skip(pos as int) =~= s.skip(pos - start));
        if size > wasm.len() - pos {
            return (out, Err("truncated wasm section".to_owned()));
        }
        let end: usize = pos + size;
        let meta: Option<&'a [u8]> = match section_meta(wasm, id, pos, end) {
            Ok(meta) => meta,
            Err(e) => {
                return (out, Err(e));
            },
        };
        let section = Section { bytes: slice_subrange(wasm, start, end), meta };
        assert(section@.bytes =~= s.take(end - start));
        out.push(section);
        assert(section_views(out@) =~= met.push(section@));
        assert(s.skip(end - start) =~= wasm@.skip(end as int));
        proof {
            let rest = readable_sections(wasm@.skip(end as int));
            assert(met + (seq![section@] + rest) =~= met.push(section@) + rest);
        }
        pos = end;
    }
    assert(wasm@.skip(pos as int) =~= Seq::empty());
    assert(section_views(out@) + Seq::<SectionView>::empty() =~= section_views(out@));
    (out, Ok(()))
}

/// What the metadata reader wants of the section with this id whose content
/// is `wasm[start..end]`.
fn section_meta<'a>(wasm: &'a [u8], id: u8, start: usize, end: usize) -> (r: Result<
    Option<&'a [u8]>,
    String,
>)
    requires
        start <= end <= wasm@.len(),
    ensures
        match meta_of(id, wasm@.skip(start as int), (end - start) as nat) {
            Ok(Some(want)) => r matches Ok(Some(got)) && got@ == want,
            Ok(None) => r matches Ok(None),
            Err(e) => r matches Err(m) && m@ == e,
        },
{
    if id != 0 {
        return Ok(None);
    }
    let ghost content = wasm@.skip(start as int);
    proof {
        lemma_leb_number_len(content, LEB_MAX_BYTES as nat);
    }
    let mut pos: usize = start;
    let name_len: usize = match leb_u32(wasm, &mut pos) {
        Ok(n) => n as usize,
        Err(e) => {
            return Err(e);
        },
    };
    if pos <= end && name_len <= end - pos {
        let name_end: usize = pos + name_len;
        let name = slice_subrange(wasm, pos, name_end);
        assert(name@ =~= content.subrange(pos - start, name_end - start));
        if is_meta_name(name) {
            let data = slice_subrange(wasm, name_end, end);
            assert(data@ =~= content.subrange(name_end - start, end - start));
            return Ok(Some(data));
        }
    }
    Ok(None)
}

/// Is this the name of a metadata section?
fn is_meta_name(name: &[u8]) -> (r: bool)
    ensures
        r == (name@ == META_SECTION@),
{
    if name.len() != META_SECTION.len() {
        return false;
    }
    let mut i: usize = 0;
    while i < name.len()
        invariant
            i <= name@.len() == META_SECTION@.len(),
            forall|j: int| 0 <= j < i ==> name@[j] == META_SECTION@[j],
        decreases name@.len() - i,
    {
        if name[i] != META_SECTION[i] {
            return false;
        }
        i = i + 1;
    }
    assert(name@ =~= META_SECTION@);
    true
}

/// `wasm` with every metadata section removed.
pub fn strip_meta(wasm: &[u8]) -> (r: Result<Vec<u8>, String>)
    ensures
        match stripped(wasm@) {
            Ok(want) => r matches Ok(got) && got@ == want,
            Err(e) => r matches Err(m) && m@ == e,
        },
{
    let (all, end) = for_each_section(wasm);
    if let Err(e) = end {
        return Err(e);
    }
    let mut out: Vec<u8> = Vec::with_capacity(wasm.len());
    let ghost views = section_views(all@);
    let mut i: usize = 0;
    assert(views.take(0) =~= Seq::empty());
    while i < all.len()
        invariant
            i <= all@.len(),
            views == section_views(all@),
            out@ == plain_bytes(views.take(i as int)),
        decreases all@.len() - i,
    {
        assert(views.take(i + 1).drop_last() =~= views.take(i as int));
        assert(views.take(i + 1).last() == all@[i as int]@);
        if all[i].meta.is_none() {
            extend(&mut out, all[i].bytes);
        }
        i = i + 1;
    }
    proof {
        assert(views.take(all@.len() as int) =~= views);
        law_walk_meets_the_bytes(wasm@);
        lemma_front(views[0], module_sections(wasm@)->Ok_0);
    }
    Ok(out)
}

/// The contents of every metadata section of `wasm`, one after the other.
pub fn extract_meta_section(wasm: &[u8]) -> (r: Result<Vec<u8>, String>)
    ensures
        match extracted(wasm@) {
            Ok(want) => r matches Ok(got) && got@ == want,
            Err(e) => r matches Err(m) && m@ == e,
        },
{
    let (all, end) = for_each_section(wasm);
    if let Err(e) = end {
        return Err(e);
    }
    let mut blob: Vec<u8> = Vec::new();
    let ghost views = section_views(all@);
    let mut i: usize = 0;
    assert(views.take(0) =~= Seq::empty());
    while i < all.len()
        invariant
            i <= all@.len(),
            views == section_views(all@),
            blob@ == meta_bytes(views.take(i as int)),
        decreases all@.len() - i,
    {
        assert(views.take(i + 1).drop_last() =~= views.take(i as int));
        assert(views.take(i + 1).last() == all@[i as int]@);
        if let Some(m) = all[i].meta {
            extend(&mut blob, m);
        }
        i = i + 1;
    }
    proof {
        assert(views.take(all@.len() as int) =~= views);
        law_walk_meets_the_bytes(wasm@);
        lemma_front(views[0], module_sections(wasm@)->Ok_0);
        assert(Seq::<u8>::empty() + meta_bytes(module_sections(wasm@)->Ok_0) =~= meta_bytes(
            module_sections(wasm@)->Ok_0,
        ));
    }
    Ok(blob)
}

/// Appends `more` to `out`.
pub fn extend(out: &mut Vec<u8>, more: &[u8])
    ensures
        final(out)@ == old(out)@ + more@,
{
    out.extend_from_slice(more);
    assert(out@ =~= old(out)@ + more@);
}

} // verus!
