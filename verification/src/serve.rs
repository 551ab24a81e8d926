//! The demo server: where it listens, what it sends along and what it says.
use crate::text;
use vstd::prelude::*;

verus! {

/// The port to listen on if none is given.
pub const DEFAULT_PORT: u16 = 8000;

/// Is it a decimal digit?
pub open spec fn is_digit(c: char) -> bool {
    '0' <= c <= '9'
}

/// The number that decimal digits spell; nothing, if there is none or something
/// else among them.
pub open spec fn number(s: Seq<char>) -> Option<nat>
    decreases s.len(),
{
    if s.len() == 0 || !is_digit(s.last()) {
        None
    } else {
        let digit = (s.last() as int - '0' as int) as nat;
        if s.len() == 1 {
            Some(digit)
        } else {
            match number(s.drop_last()) {
                Some(before) => Some(before * 10 + digit),
                None => None,
            }
        }
    }
}

/// `s` without a plus sign in front.
pub open spec fn unsigned(s: Seq<char>) -> Seq<char> {
    if s.len() > 0 && s[0] == '+' {
        s.skip(1)
    } else {
        s
    }
}

/// The port that is asked for: a number, perhaps with a plus sign, that is a
/// port; else the default.
pub open spec fn port_of(asked: Option<Seq<char>>) -> u16 {
    match asked {
        Some(s) => match number(unsigned(s)) {
            Some(n) if n <= u16::MAX => n as u16,
            _ => DEFAULT_PORT,
        },
        None => DEFAULT_PORT,
    }
}

/// The port that is asked for by its number is that port, with or without a plus
/// sign and zeros in front, unless there is no such port.
pub proof fn law_number_asks_for_its_port(n: nat, zeros: nat)
    ensures
        ({
            let digits = Seq::new(zeros, |i: int| '0') + text::decimal(n);
            let port = if n <= 65535 {
                n
            } else {
                8000
            };
            &&& port_of(Some(digits)) == port
            &&& port_of(Some(seq!['+'] + digits)) == port
        }),
{
    let zero = Seq::new(zeros, |i: int| '0');
    let digits = zero + text::decimal(n);
    text::law_decimal_spells_the_number(n);
    assert forall|i: int| 0 <= i < digits.len() implies '0' <= #[trigger] digits[i] <= '9' by {
        if i >= zeros {
            assert(digits[i] == text::decimal(n)[i - zeros]);
        }
    }
    lemma_spelled(digits);
    lemma_zeros(zeros, text::decimal(n));
    assert(unsigned(digits) == digits);
    assert((seq!['+'] + digits).skip(1) =~= digits);
}

proof fn lemma_spelled(s: Seq<char>)
    requires
        s.len() > 0,
        forall|i: int| 0 <= i < s.len() ==> '0' <= #[trigger] s[i] <= '9',
    ensures
        text::spelled_number(s) >= 0,
        number(s) == Some(text::spelled_number(s) as nat),
    decreases s.len(),
{
    let front = s.drop_last();
    assert('0' <= s[s.len() - 1] <= '9');
    if front.len() > 0 {
        assert forall|i: int| 0 <= i < front.len() implies '0' <= #[trigger] front[i] <= '9' by {
            assert(front[i] == s[i]);
        }
        lemma_spelled(front);
    } else {
        assert(text::spelled_number(front) == 0);
    }
}

proof fn lemma_zeros(zeros: nat, rest: Seq<char>)
    ensures
        text::spelled_number(Seq::new(zeros, |i: int| '0') + rest) == text::spelled_number(rest),
    decreases rest.len(), zeros,
{
    let s = Seq::new(zeros, |i: int| '0') + rest;
    if rest.len() > 0 {
        assert(s.drop_last() =~= Seq::new(zeros, |i: int| '0') + rest.drop_last());
        lemma_zeros(zeros, rest.drop_last());
    } else if zeros > 0 {
        assert(s.drop_last() =~= Seq::new((zeros - 1) as nat, |i: int| '0') + rest);
        lemma_zeros((zeros - 1) as nat, rest);
    } else {
        assert(s =~= rest);
    }
}

/// What is no number asks for no port, and so does nothing at all: the port is
/// the one that is used if none is given.
pub proof fn law_nothing_else_asks_for_a_port(s: Seq<char>, i: int)
    requires
        0 <= i < s.len(),
        !('0' <= s[i] <= '9'),
        i == 0 ==> s[0] != '+' || s.len() == 1,
    ensures
        port_of(Some(s)) == 8000,
        port_of(Some(Seq::empty())) == 8000,
        port_of(None) == 8000,
{
    let t = unsigned(s);
    let k = i - (s.len() - t.len());
    if t.len() > 0 {
        assert(t[k] == s[i]);
        lemma_number_prefix(t, k + 1);
        assert(t.take(k + 1).last() == s[i]);
    }
}

proof fn lemma_number_prefix(s: Seq<char>, n: int)
    requires
        1 <= n <= s.len(),
    ensures
        number(s.take(n)) is None ==> number(s) is None,
        number(s.take(n)) matches Some(a) ==> (number(s) matches Some(b) ==> a <= b),
    decreases s.len(),
{
    if n == s.len() {
        assert(s.take(n) =~= s);
    } else {
        assert(s.drop_last().take(n) =~= s.take(n));
        lemma_number_prefix(s.drop_last(), n);
    }
}

/// The number that the characters from index `from` on spell, if it is a port.
fn parse_port(chars: &Vec<char>, from: usize) -> (r: Option<u16>)
    requires
        from <= chars@.len(),
    ensures
        r == match number(chars@.skip(from as int)) {
            Some(n) if n <= u16::MAX => Some(n as u16),
            _ => None,
        },
{
    let ghost s = chars@.skip(from as int);
    if from == chars.len() {
        return None;
    }
    let mut value: u32 = 0;
    let mut i: usize = from;
    while i < chars.len()
        invariant
            from <= i <= chars@.len(),
            from < chars@.len(),
            s == chars@.skip(from as int),
            value <= u16::MAX,
            i == from ==> value == 0,
            i > from ==> number(s.take(i - from)) == Some(value as nat),
        decreases chars@.len() - i,
    {
        let c = chars[i];
        let ghost front = s.take(i + 1 - from);
        assert(front.last() == c);
        assert(front.drop_last() =~= s.take(i - from));
        if c < '0' || c > '9' {
            proof {
                lemma_number_prefix(s, i + 1 - from);
            }
            return None;
        }
        value = value * 10 + (c as u32 - '0' as u32);
        assert(number(front) == Some(value as nat));
        if value > 65535 {
            proof {
                lemma_number_prefix(s, i + 1 - from);
            }
            return None;
        }
        i = i + 1;
    }
    assert(s.take(i - from) =~= s);
    Some(value as u16)
}

/// The port that is asked for, or the default.
pub fn port(asked: Option<&str>) -> (r: u16)
    ensures
        r == port_of(
            match asked {
                Some(s) => Some(s@),
                None => None,
            },
        ),
{
    match asked {
        None => DEFAULT_PORT,
        Some(s) => {
            let chars = text::chars_of(s);
            let from: usize = if chars.len() > 0 && chars[0] == '+' {
                1
            } else {
                0
            };
            assert(chars@.skip(0) =~= chars@);
            match parse_port(&chars, from) {
                Some(n) => n,
                None => DEFAULT_PORT,
            }
        },
    }
}

/// The headers that every response carries. With both of them a page may share
/// memory between its workers.
pub fn isolation_headers() -> (r: [(&'static str, &'static str); 2])
    ensures
        r@[0].0@ == "Cross-Origin-Opener-Policy"@,
        r@[0].1@ == "same-origin"@,
        r@[1].0@ == "Cross-Origin-Embedder-Policy"@,
        r@[1].1@ == "require-corp"@,
{
    [
        ("Cross-Origin-Opener-Policy", "same-origin"),
        ("Cross-Origin-Embedder-Policy", "require-corp"),
    ]
}

/// Where the server listens.
pub open spec fn address_of(port: u16) -> Seq<char> {
    "127.0.0.1:"@ + text::decimal(port as nat)
}

/// The line that names a page, with what is said of it.
pub open spec fn page_line(port: u16, page: Seq<char>, note: Seq<char>) -> Seq<char> {
    "  http://"@ + address_of(port) + page + note
}

/// Where the server listens names the port, and so does every page.
pub proof fn law_address_names_the_port(port: u16, page: Seq<char>, note: Seq<char>) -> (r: Seq<
    char,
>)
    ensures
        text::spelled_number(r) == port,
        address_of(port) == "127.0.0.1:"@ + r,
        page_line(port, page, note) == "  http://"@ + ("127.0.0.1:"@ + r) + page + note,
{
    text::law_decimal_spells_the_number(port as nat);
    text::decimal(port as nat)
}

/// Where the server listens.
pub fn address(port: u16) -> (r: String)
    ensures
        r@ == address_of(port),
{
    let mut out: String = "127.0.0.1:".to_owned();
    out.append(text::decimal_text(port as u64).as_str());
    out
}

/// The line that names a page, with what is said of it.
pub fn page(port: u16, path: &str, note: &str) -> (r: String)
    ensures
        r@ == page_line(port, path@, note@),
{
    let mut out: String = "  http://".to_owned();
    out.append(address(port).as_str());
    out.append(path);
    out.append(note);
    out
}

/// The first line that the server writes.
pub fn serving(root: &str, port: u16) -> (r: String)
    ensures
        r@ == "serving "@ + root@ + " on http://"@ + address_of(port),
{
    let mut out: String = "serving ".to_owned();
    out.append(root);
    out.append(" on http://");
    out.append(address(port).as_str());
    out
}

} // verus!
