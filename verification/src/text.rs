//! Text: comparing, splitting and joining strings, and writing numbers.
use vstd::prelude::*;
use vstd::utf8::*;

verus! {

/// The views of a list of strings.
pub open spec fn texts(list: Seq<String>) -> Seq<Seq<char>> {
    list.map_values(|s: String| s@)
}

/// `a` comes before `b` in the order of their characters' scalar values.
pub open spec fn text_less(a: Seq<char>, b: Seq<char>) -> bool
    decreases a.len(),
{
    if b.len() == 0 {
        false
    } else if a.len() == 0 {
        true
    } else if a[0] != b[0] {
        a[0] < b[0]
    } else {
        text_less(a.skip(1), b.skip(1))
    }
}

/// The pieces of `s` between the separators in it: always at least one.
pub open spec fn split(s: Seq<char>, sep: char) -> Seq<Seq<char>>
    decreases s.len(),
{
    if s.len() == 0 {
        seq![Seq::empty()]
    } else {
        let before = split(s.drop_last(), sep);
        if s.last() == sep {
            before.push(Seq::empty())
        } else {
            before.drop_last().push(before.last().push(s.last()))
        }
    }
}

/// The pieces one after the other, with `sep` between them.
pub open spec fn join(pieces: Seq<Seq<char>>, sep: Seq<char>) -> Seq<char>
    decreases pieces.len(),
{
    if pieces.len() == 0 {
        Seq::empty()
    } else if pieces.len() == 1 {
        pieces[0]
    } else {
        join(pieces.drop_last(), sep) + sep + pieces.last()
    }
}

/// The pieces one after the other.
pub open spec fn concat(pieces: Seq<Seq<char>>) -> Seq<char>
    decreases pieces.len(),
{
    if pieces.len() == 0 {
        Seq::empty()
    } else {
        concat(pieces.drop_last()) + pieces.last()
    }
}

/// All the pieces, or nothing if one is missing.
pub open spec fn gathered(pieces: Seq<Option<Seq<char>>>) -> Option<Seq<Seq<char>>>
    decreases pieces.len(),
{
    if pieces.len() == 0 {
        Some(Seq::empty())
    } else {
        match (gathered(pieces.drop_last()), pieces.last()) {
            (Some(before), Some(last)) => Some(before.push(last)),
            _ => None,
        }
    }
}

/// All the pieces one after the other, or nothing if one is missing.
pub open spec fn gathered_text(pieces: Seq<Option<Seq<char>>>) -> Option<Seq<char>> {
    match gathered(pieces) {
        Some(all) => Some(concat(all)),
        None => None,
    }
}

/// `s` where `cond` holds, else nothing.
pub open spec fn when(cond: bool, s: Seq<char>) -> Seq<char> {
    if cond {
        s
    } else {
        Seq::empty()
    }
}

/// The decimal digit of `d`.
pub open spec fn digit(d: nat) -> Seq<char> {
    if d == 0 {
        "0"@
    } else if d == 1 {
        "1"@
    } else if d == 2 {
        "2"@
    } else if d == 3 {
        "3"@
    } else if d == 4 {
        "4"@
    } else if d == 5 {
        "5"@
    } else if d == 6 {
        "6"@
    } else if d == 7 {
        "7"@
    } else if d == 8 {
        "8"@
    } else {
        "9"@
    }
}

/// `n` in decimal, without leading zeros.
pub open spec fn decimal(n: nat) -> Seq<char>
    decreases n,
{
    if n < 10 {
        digit(n)
    } else {
        decimal(n / 10) + digit(n % 10)
    }
}

/// The index of the first `c` in `s`, or the length of `s` if there is none.
pub open spec fn first_at(s: Seq<char>, c: char) -> nat
    decreases s.len(),
{
    if s.len() == 0 || s[0] == c {
        0
    } else {
        1 + first_at(s.skip(1), c)
    }
}

/// The order of texts is irreflexive.
pub proof fn lemma_less_irreflexive(a: Seq<char>)
    ensures
        !text_less(a, a),
    decreases a.len(),
{
    if a.len() > 0 {
        lemma_less_irreflexive(a.skip(1));
    }
}

/// The order of texts is transitive.
pub proof fn lemma_less_transitive(a: Seq<char>, b: Seq<char>, c: Seq<char>)
    requires
        text_less(a, b),
        text_less(b, c),
    ensures
        text_less(a, c),
    decreases a.len(),
{
    if a.len() > 0 && a[0] == b[0] && b[0] == c[0] {
        lemma_less_transitive(a.skip(1), b.skip(1), c.skip(1));
    }
}

/// The order of texts is total.
pub proof fn lemma_less_total(a: Seq<char>, b: Seq<char>)
    ensures
        text_less(a, b) || text_less(b, a) || a == b,
    decreases a.len(),
{
    if a.len() == 0 && b.len() == 0 {
        assert(a =~= b);
    } else if a.len() > 0 && b.len() > 0 && a[0] == b[0] {
        lemma_less_total(a.skip(1), b.skip(1));
        if a.skip(1) == b.skip(1) {
            assert(a =~= seq![a[0]] + a.skip(1));
            assert(b =~= seq![b[0]] + b.skip(1));
        }
    }
}

/// No piece of a split text holds the separator, and putting the separator
/// back between the pieces gives the text.
pub proof fn law_split_is_undone_by_join(s: Seq<char>, sep: char)
    ensures
        split(s, sep).len() >= 1,
        forall|i: int| 0 <= i < split(s, sep).len() ==> !(#[trigger] split(s, sep)[i]).contains(sep),
        join(split(s, sep), seq![sep]) == s,
    decreases s.len(),
{
    let pieces = split(s, sep);
    if s.len() == 0 {
        assert(join(pieces, seq![sep]) =~= s);
    } else {
        let before = split(s.drop_last(), sep);
        law_split_is_undone_by_join(s.drop_last(), sep);
        if s.last() == sep {
            assert(pieces.drop_last() =~= before);
            assert(join(pieces, seq![sep]) =~= s);
        } else {
            let last = before.last().push(s.last());
            assert(!last.contains(sep)) by {
                if last.contains(sep) {
                    let k = choose|k: int| 0 <= k < last.len() && last[k] == sep;
                    assert(k < before.last().len());
                    assert(before.last()[k] == sep);
                    assert(before[before.len() - 1].contains(sep));
                }
            }
            assert(pieces.drop_last() =~= before.drop_last());
            if before.len() == 1 {
                assert(join(pieces, seq![sep]) =~= s);
            } else {
                assert(join(pieces, seq![sep]) =~= join(before, seq![sep]).push(s.last()));
                assert(s.drop_last().push(s.last()) =~= s);
            }
        }
    }
}

proof fn lemma_split_plain(s: Seq<char>, sep: char)
    requires
        !s.contains(sep),
    ensures
        split(s, sep) == seq![s],
    decreases s.len(),
{
    if s.len() > 0 {
        assert(!s.drop_last().contains(sep)) by {
            if s.drop_last().contains(sep) {
                let k = choose|k: int| 0 <= k < s.drop_last().len() && s.drop_last()[k] == sep;
                assert(s[k] == sep);
            }
        }
        lemma_split_plain(s.drop_last(), sep);
        assert(s[s.len() - 1] == s.last());
        assert(s.last() != sep);
        assert(split(s, sep) =~= seq![s]) by {
            assert(s.drop_last().push(s.last()) =~= s);
        }
    } else {
        assert(s =~= Seq::empty());
    }
}

proof fn lemma_split_append(a: Seq<char>, sep: char, b: Seq<char>)
    requires
        !b.contains(sep),
    ensures
        split(a + seq![sep] + b, sep) == split(a, sep).push(b),
    decreases b.len(),
{
    let s = a + seq![sep] + b;
    if b.len() == 0 {
        assert(s.drop_last() =~= a);
        assert(b =~= Seq::empty());
    } else {
        assert(s.drop_last() =~= a + seq![sep] + b.drop_last());
        assert(!b.drop_last().contains(sep)) by {
            if b.drop_last().contains(sep) {
                let k = choose|k: int| 0 <= k < b.drop_last().len() && b.drop_last()[k] == sep;
                assert(b[k] == sep);
            }
        }
        lemma_split_append(a, sep, b.drop_last());
        assert(b[b.len() - 1] != sep);
        assert(s.last() == b.last());
        let before = split(a, sep).push(b.drop_last());
        assert(before.drop_last() =~= split(a, sep));
        assert(b.drop_last().push(b.last()) =~= b);
    }
}

/// Joining pieces that do not hold the separator and splitting the result
/// gives the pieces.
pub proof fn law_join_is_undone_by_split(pieces: Seq<Seq<char>>, sep: char)
    requires
        pieces.len() >= 1,
        forall|i: int| 0 <= i < pieces.len() ==> !(#[trigger] pieces[i]).contains(sep),
    ensures
        split(join(pieces, seq![sep]), sep) == pieces,
    decreases pieces.len(),
{
    if pieces.len() == 1 {
        lemma_split_plain(pieces[0], sep);
        assert(seq![pieces[0]] =~= pieces);
    } else {
        assert forall|i: int| 0 <= i < pieces.drop_last().len() implies !(
        #[trigger] pieces.drop_last()[i]).contains(sep) by {
            assert(pieces.drop_last()[i] == pieces[i]);
        }
        law_join_is_undone_by_split(pieces.drop_last(), sep);
        assert(!pieces[pieces.len() - 1].contains(sep));
        lemma_split_append(join(pieces.drop_last(), seq![sep]), sep, pieces.last());
        assert(pieces.drop_last().push(pieces.last()) =~= pieces);
    }
}

/// Joined pieces are the first one, the separator and the other ones joined; one
/// piece is joined to itself.
pub proof fn law_join_starts_with_the_first(pieces: Seq<Seq<char>>, sep: Seq<char>)
    requires
        pieces.len() >= 1,
    ensures
        pieces.len() == 1 ==> join(pieces, sep) == pieces[0],
        pieces.len() >= 2 ==> join(pieces, sep) == pieces[0] + sep + join(pieces.skip(1), sep),
    decreases pieces.len(),
{
    if pieces.len() >= 2 {
        let front = pieces.drop_last();
        let rest = pieces.skip(1);
        law_join_starts_with_the_first(front, sep);
        assert(rest.last() == pieces.last());
        if pieces.len() == 2 {
            assert(join(pieces, sep) =~= pieces[0] + sep + pieces[1]);
            assert(join(rest, sep) == pieces[1]);
        } else {
            assert(front.skip(1) =~= rest.drop_last());
            assert(join(pieces, sep) =~= pieces[0] + sep + join(rest, sep));
        }
    }
}

/// Pieces one after the other: what two lists give together is what one gives
/// followed by what the other gives.
pub proof fn law_concat_adds_up(a: Seq<Seq<char>>, b: Seq<Seq<char>>, piece: Seq<char>)
    ensures
        concat(a + b) == concat(a) + concat(b),
        concat(seq![piece]) == piece,
    decreases b.len(),
{
    let one = seq![piece];
    assert(one.drop_last() =~= Seq::empty());
    assert(concat(one.drop_last()) =~= Seq::empty());
    assert(one.last() == piece);
    assert(concat(one) =~= piece);
    if b.len() == 0 {
        assert(a + b =~= a);
        assert(concat(a) + concat(b) =~= concat(a));
    } else {
        assert((a + b).drop_last() =~= a + b.drop_last());
        law_concat_adds_up(a, b.drop_last(), piece);
        assert(concat(a + b) =~= concat(a) + concat(b));
    }
}

/// All pieces can be gathered if and only if none is missing, and they keep their
/// places.
pub proof fn law_gathered_pieces_keep_their_places(pieces: Seq<Option<Seq<char>>>)
    ensures
        gathered(pieces) is Some <==> forall|i: int|
            0 <= i < pieces.len() ==> (#[trigger] pieces[i]) is Some,
        gathered(pieces) matches Some(all) ==> all.len() == pieces.len() && forall|i: int|
            0 <= i < pieces.len() ==> pieces[i] == Some(#[trigger] all[i]),
    decreases pieces.len(),
{
    if pieces.len() > 0 {
        let front = pieces.drop_last();
        law_gathered_pieces_keep_their_places(front);
        assert(forall|i: int| 0 <= i < front.len() ==> front[i] == pieces[i]);
        assert(pieces.last() == pieces[pieces.len() - 1]);
        if gathered(pieces) is Some {
            assert forall|i: int| 0 <= i < pieces.len() implies (#[trigger] pieces[i]) is Some by {
                if i < front.len() {
                    assert(front[i] is Some);
                }
            }
        }
    }
}

/// Pieces of which none is missing are gathered as they are.
pub proof fn lemma_gathered(pieces: Seq<Option<Seq<char>>>, all: Seq<Seq<char>>)
    requires
        pieces.len() == all.len(),
        forall|i: int| 0 <= i < pieces.len() ==> pieces[i] == Some(#[trigger] all[i]),
    ensures
        gathered(pieces) == Some(all),
        gathered_text(pieces) == Some(concat(all)),
{
    law_gathered_pieces_keep_their_places(pieces);
    assert forall|i: int| 0 <= i < pieces.len() implies (#[trigger] pieces[i]) is Some by {
        assert(pieces[i] == Some(all[i]));
    }
    let got = gathered(pieces)->0;
    assert forall|i: int| 0 <= i < pieces.len() implies got[i] == all[i] by {
        assert(pieces[i] == Some(got[i]));
    }
    assert(got =~= all);
}

/// The number that decimal digits spell.
pub open spec fn spelled_number(digits: Seq<char>) -> int
    decreases digits.len(),
{
    if digits.len() == 0 {
        0
    } else {
        10 * spelled_number(digits.drop_last()) + (digits.last() as int - '0' as int)
    }
}

/// A number in decimal spells the number, in digits alone, and starts with a zero
/// only if it is zero.
pub proof fn law_decimal_spells_the_number(n: nat)
    ensures
        spelled_number(decimal(n)) == n,
        decimal(n).len() >= 1,
        forall|i: int| 0 <= i < decimal(n).len() ==> '0' <= #[trigger] decimal(n)[i] <= '9',
        decimal(n)[0] == '0' ==> n == 0,
    decreases n,
{
    reveal_strlit("0");
    reveal_strlit("1");
    reveal_strlit("2");
    reveal_strlit("3");
    reveal_strlit("4");
    reveal_strlit("5");
    reveal_strlit("6");
    reveal_strlit("7");
    reveal_strlit("8");
    reveal_strlit("9");
    let d = decimal(n);
    if n < 10 {
        assert(d.len() == 1);
        assert(d.drop_last() =~= Seq::empty());
        assert(spelled_number(d.drop_last()) == 0);
        assert(d.last() as int - '0' as int == n);
    } else {
        law_decimal_spells_the_number(n / 10);
        let last = digit(n % 10);
        assert(last.len() == 1);
        assert(d.drop_last() =~= decimal(n / 10));
        assert(d.last() == last[0]);
        assert(last[0] as int - '0' as int == n % 10);
    }
}

/// One text comes before another if it is the start of it, or has the smaller
/// character where the two first differ.
pub proof fn law_first_difference_decides(a: Seq<char>, b: Seq<char>, k: int)
    requires
        0 <= k <= a.len(),
        k <= b.len(),
        a.take(k) == b.take(k),
        k < a.len() && k < b.len() ==> a[k] != b[k],
    ensures
        k < a.len() && k < b.len() ==> (text_less(a, b) <==> a[k] < b[k]),
        k == a.len() ==> (text_less(a, b) <==> k < b.len()),
        k == b.len() ==> !text_less(a, b),
    decreases k,
{
    if k > 0 {
        assert(a[0] == a.take(k)[0] && b[0] == b.take(k)[0]);
        assert(a.skip(1).take(k - 1) =~= a.take(k).skip(1));
        assert(b.skip(1).take(k - 1) =~= b.take(k).skip(1));
        law_first_difference_decides(a.skip(1), b.skip(1), k - 1);
    }
}

/// Where a piece is missing, not all of them can be gathered.
pub proof fn lemma_missing(pieces: Seq<Option<Seq<char>>>, i: int)
    requires
        0 <= i < pieces.len(),
        pieces[i] is None,
    ensures
        gathered(pieces) is None,
    decreases pieces.len(),
{
    if i < pieces.len() - 1 {
        lemma_missing(pieces.drop_last(), i);
    }
}

/// What `std::str::from_utf8` says of bytes that are not UTF-8: the text of
/// its error.
pub uninterp spec fn utf8_error_text(bytes: Seq<u8>) -> Seq<char>;

/// Calls `std::str::from_utf8`, which accepts exactly the UTF-8 byte sequences.
/// Claims that, and that the characters are the encoded ones; the text of the
/// error has the name [`utf8_error_text`].
#[verifier::external_body]
pub(crate) fn utf8_text(bytes: &[u8]) -> (r: Result<String, String>)
    ensures
        match r {
            Ok(s) => valid_utf8(bytes@) && s@ == decode_utf8(bytes@),
            Err(m) => !valid_utf8(bytes@) && m@ == utf8_error_text(bytes@),
        },
{
    std::str::from_utf8(bytes).map(|s| s.to_string()).map_err(|e| e.to_string())
}

/// The index of the first `c` in the text, or its length if there is none.
pub fn first_index(chars: &Vec<char>, c: char) -> (r: usize)
    ensures
        r == first_at(chars@, c),
        r <= chars@.len(),
        r < chars@.len() ==> chars@[r as int] == c,
{
    let mut i: usize = 0;
    assert(chars@.skip(0) =~= chars@);
    while i < chars.len()
        invariant
            i <= chars@.len(),
            first_at(chars@, c) == i + first_at(chars@.skip(i as int), c),
        decreases chars@.len() - i,
    {
        if chars[i] == c {
            return i;
        }
        assert(chars@.skip(i as int).skip(1) =~= chars@.skip(i + 1));
        i = i + 1;
    }
    i
}

/// Are the two texts the same?
pub fn same(a: &str, b: &str) -> (r: bool)
    ensures
        r == (a@ == b@),
{
    let x = a.as_bytes();
    let y = b.as_bytes();
    proof {
        encode_utf8_decode_utf8(a@);
        encode_utf8_decode_utf8(b@);
    }
    if x.len() != y.len() {
        return false;
    }
    let mut i: usize = 0;
    while i < x.len()
        invariant
            i <= x@.len() == y@.len(),
            x@ == encode_utf8(a@),
            y@ == encode_utf8(b@),
            forall|j: int| 0 <= j < i ==> x@[j] == y@[j],
        decreases x@.len() - i,
    {
        if x[i] != y[i] {
            return false;
        }
        i = i + 1;
    }
    assert(x@ =~= y@);
    true
}

/// The characters of a text.
pub fn chars_of(s: &str) -> (r: Vec<char>)
    ensures
        r@ == s@,
{
    let mut out: Vec<char> = Vec::new();
    for c in it: s.chars()
        invariant
            out@ == it.seq().take(it.index() as int),
            it.seq() == s@,
    {
        out.push(c);
        assert(out@ =~= it.seq().take(it.index() + 1));
    }
    assert(s@.take(s@.len() as int) =~= s@);
    out
}

/// Does `a` come before `b`?
pub fn less(a: &str, b: &str) -> (r: bool)
    ensures
        r == text_less(a@, b@),
{
    let x = chars_of(a);
    let y = chars_of(b);
    let mut i: usize = 0;
    assert(x@.skip(0) =~= x@);
    assert(y@.skip(0) =~= y@);
    loop
        invariant
            i <= x@.len(),
            i <= y@.len(),
            text_less(a@, b@) == text_less(x@.skip(i as int), y@.skip(i as int)),
        decreases x@.len() - i,
    {
        if i >= y.len() {
            return false;
        }
        if i >= x.len() {
            return true;
        }
        if x[i] != y[i] {
            return x[i] < y[i];
        }
        assert(x@.skip(i as int).skip(1) =~= x@.skip(i + 1));
        assert(y@.skip(i as int).skip(1) =~= y@.skip(i + 1));
        i = i + 1;
    }
}

/// The pieces of `s` between the separators in it.
pub fn split_text(s: &str, sep: char) -> (r: Vec<String>)
    ensures
        texts(r@) == split(s@, sep),
{
    let chars = chars_of(s);
    let mut out: Vec<String> = Vec::new();
    let mut start: usize = 0;
    let mut i: usize = 0;
    proof {
        assert(s@.take(0) =~= Seq::empty());
        assert(s@.subrange(0, 0) =~= Seq::empty());
        assert(texts(out@).push(Seq::empty()) =~= seq![Seq::empty()]);
    }
    while i < chars.len()
        invariant
            chars@ == s@,
            start <= i <= chars@.len(),
            texts(out@).push(s@.subrange(start as int, i as int)) == split(s@.take(i as int), sep),
        decreases chars@.len() - i,
    {
        let ghost before = texts(out@).push(s@.subrange(start as int, i as int));
        assert(s@.take(i + 1).drop_last() =~= s@.take(i as int));
        assert(s@.take(i + 1).last() == s@[i as int]);
        if chars[i] == sep {
            let piece = s.substring_char(start, i);
            let ghost old_out = texts(out@);
            out.push(piece.to_owned());
            assert(texts(out@) =~= old_out.push(piece@));
            start = i + 1;
            assert(s@.subrange(start as int, i + 1) =~= Seq::empty());
        } else {
            assert(before.drop_last() =~= texts(out@));
            assert(before.last().push(s@[i as int]) =~= s@.subrange(start as int, i + 1));
        }
        i = i + 1;
    }
    let piece = s.substring_char(start, i);
    let ghost old_out = texts(out@);
    out.push(piece.to_owned());
    assert(texts(out@) =~= old_out.push(piece@));
    assert(s@.take(i as int) =~= s@);
    out
}

/// The pieces one after the other, with `sep` between them.
pub fn join_texts(pieces: &Vec<String>, sep: &str) -> (r: String)
    ensures
        r@ == join(texts(pieces@), sep@),
{
    let ghost views = texts(pieces@);
    if pieces.len() == 0 {
        return String::new();
    }
    let mut out: String = pieces[0].clone();
    let mut i: usize = 1;
    assert(views.take(1).len() == 1);
    while i < pieces.len()
        invariant
            1 <= i <= pieces@.len(),
            views == texts(pieces@),
            out@ == join(views.take(i as int), sep@),
        decreases pieces@.len() - i,
    {
        assert(views.take(i + 1).drop_last() =~= views.take(i as int));
        out.append(sep);
        out.append(pieces[i].as_str());
        i = i + 1;
    }
    assert(views.take(i as int) =~= views);
    out
}

/// The pieces one after the other.
pub fn concat_texts(pieces: &Vec<String>) -> (r: String)
    ensures
        r@ == concat(texts(pieces@)),
{
    let ghost views = texts(pieces@);
    let mut out: String = String::new();
    let mut i: usize = 0;
    assert(views.take(0) =~= Seq::empty());
    while i < pieces.len()
        invariant
            i <= pieces@.len(),
            views == texts(pieces@),
            out@ == concat(views.take(i as int)),
        decreases pieces@.len() - i,
    {
        assert(views.take(i + 1).drop_last() =~= views.take(i as int));
        out.append(pieces[i].as_str());
        i = i + 1;
    }
    assert(views.take(i as int) =~= views);
    out
}

/// `before`, `middle` and `after`, one after the other.
pub fn around(before: &str, middle: &str, after: &str) -> (r: String)
    ensures
        r@ == before@ + middle@ + after@,
{
    let mut out: String = before.to_owned();
    out.append(middle);
    out.append(after);
    out
}

/// Appends `s` where `cond` holds.
pub fn append_when(out: &mut String, cond: bool, s: &str)
    ensures
        final(out)@ == old(out)@ + when(cond, s@),
{
    if cond {
        out.append(s);
    } else {
        assert(out@ + Seq::<char>::empty() =~= out@);
    }
}

/// Puts another piece behind those gathered so far.
pub fn gather(pieces: &mut Vec<String>, piece: String)
    ensures
        texts(final(pieces)@) == texts(old(pieces)@).push(piece@),
{
    let ghost before = texts(pieces@);
    pieces.push(piece);
    assert(texts(pieces@) =~= before.push(piece@));
}

/// How `std` writes a text for debugging: between quotes, with escapes.
pub uninterp spec fn debug_text(s: Seq<char>) -> Seq<char>;

/// A letter, a digit or an underscore, of ASCII.
pub open spec fn plain_char(c: char) -> bool {
    'a' <= c <= 'z' || 'A' <= c <= 'Z' || '0' <= c <= '9' || c == '_'
}

/// Formats `s` with the `Debug` of `str`, which writes it between double quotes
/// and escapes what is special. Claims that letters, digits and underscores of
/// ASCII stand for themselves; of any other text only that the result has the
/// name [`debug_text`].
#[verifier::external_body]
pub(crate) fn debug_form(s: &str) -> (r: String)
    ensures
        r@ == debug_text(s@),
        (forall|i: int| 0 <= i < s@.len() ==> plain_char(#[trigger] s@[i])) ==> r@ == "\""@ + s@
            + "\""@,
{
    format!("{s:?}")
}

/// The decimal digit of `d`.
fn digit_text(d: u64) -> (r: &'static str)
    requires
        d < 10,
    ensures
        r@ == digit(d as nat),
{
    match d {
        0 => "0",
        1 => "1",
        2 => "2",
        3 => "3",
        4 => "4",
        5 => "5",
        6 => "6",
        7 => "7",
        8 => "8",
        _ => "9",
    }
}

/// `n` in decimal.
pub fn decimal_text(n: u64) -> (r: String)
    ensures
        r@ == decimal(n as nat),
    decreases n,
{
    if n < 10 {
        digit_text(n).to_owned()
    } else {
        let mut out = decimal_text(n / 10);
        out.append(digit_text(n % 10));
        out
    }
}

} // verus!
