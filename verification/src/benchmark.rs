//! The functions that the benchmark calls.
use vstd::prelude::*;

verus! {

/// A person with text, numbers and an optional field.
#[derive(Debug)]
pub struct Person {
    pub name: String,
    pub age: u32,
    pub email: Option<String>,
    pub scores: Vec<u32>,
}

/// How many scores [`get_scores`] gives.
pub const SCORES: u32 = 1024;

/// The numbers 1, 1, 2, 3, 5, ..., each the sum of the two before it.
pub open spec fn fib(n: nat) -> nat
    decreases n,
{
    if n < 2 {
        1
    } else {
        fib((n - 1) as nat) + fib((n - 2) as nat)
    }
}

/// The number that the low 32 bits of `n` spell in two's complement.
pub open spec fn low_i32(n: nat) -> int {
    let low = n % 0x1_0000_0000;
    if low < 0x8000_0000 {
        low as int
    } else {
        low - 0x1_0000_0000
    }
}

/// Two neighbours among the [`fib`] numbers.
spec fn fib_pair(n: nat) -> (nat, nat)
    decreases n,
{
    if n == 0 {
        (1, 1)
    } else {
        let (a, b) = fib_pair((n - 1) as nat);
        (b, a + b)
    }
}

proof fn lemma_fib_pair(n: nat)
    ensures
        fib_pair(n) == (fib(n), fib(n + 1)),
    decreases n,
{
    if n > 0 {
        lemma_fib_pair((n - 1) as nat);
    }
}

proof fn lemma_fib_grows(i: nat, j: nat)
    requires
        i <= j,
    ensures
        fib(i) <= fib(j),
    decreases j,
{
    if i < j {
        lemma_fib_grows(i, (j - 1) as nat);
    }
}

/// The last number that fits in 64 bits.
proof fn lemma_fib_fits()
    ensures
        fib(92) <= u64::MAX,
{
    assert(fib_pair(16) == (1597nat, 2584nat)) by {
        reveal_with_fuel(fib_pair, 17);
    }
    assert(fib_pair(32) == (3524578nat, 5702887nat)) by {
        reveal_with_fuel(fib_pair, 17);
    }
    assert(fib_pair(48) == (7778742049nat, 12586269025nat)) by {
        reveal_with_fuel(fib_pair, 17);
    }
    assert(fib_pair(64) == (17167680177565nat, 27777890035288nat)) by {
        reveal_with_fuel(fib_pair, 17);
    }
    assert(fib_pair(80) == (37889062373143906nat, 61305790721611591nat)) by {
        reveal_with_fuel(fib_pair, 17);
    }
    assert(fib_pair(92) == (12200160415121876738nat, 19740274219868223167nat)) by {
        reveal_with_fuel(fib_pair, 13);
    }
    lemma_fib_pair(92);
}

/// What [`fibonacci`] gives: the low 32 bits of the number with index `n`, or of
/// the first one if `n` is negative.
pub open spec fn fibonacci_of(n: int) -> int {
    low_i32(
        fib(
            if n < 0 {
                0
            } else {
                n as nat
            },
        ),
    )
}

/// The number that the low 32 bits of a sum spell in two's complement, as a sum
/// that wraps around gives it.
pub open spec fn wrapping_sum(a: int, b: int) -> int {
    if a + b > i32::MAX {
        a + b - 0x1_0000_0000
    } else if a + b < i32::MIN {
        a + b + 0x1_0000_0000
    } else {
        a + b
    }
}

proof fn lemma_low_sum(a: nat, b: nat)
    ensures
        low_i32(a + b) == wrapping_sum(low_i32(a), low_i32(b)),
        i32::MIN <= low_i32(a) <= i32::MAX,
{
}

/// Each number is the sum of the two before it, wrapping around at 32 bits; the
/// first two, and all before them, are 1.
pub proof fn law_fibonacci_adds_up(n: int)
    ensures
        n >= 2 ==> fibonacci_of(n) == wrapping_sum(fibonacci_of(n - 1), fibonacci_of(n - 2)),
        n < 2 ==> fibonacci_of(n) == 1,
        i32::MIN <= fibonacci_of(n) <= i32::MAX,
{
    if n >= 2 {
        lemma_low_sum(fib((n - 1) as nat), fib((n - 2) as nat));
    }
    lemma_low_sum(
        fib(
            if n < 0 {
                0
            } else {
                n as nat
            },
        ),
        0,
    );
}

/// Does nothing.
pub fn thunk() -> (r: ())
    ensures
        r == (),
{
}

/// The sum of two numbers.
pub fn add(a: i32, b: i32) -> (r: i32)
    requires
        i32::MIN <= a + b <= i32::MAX,
    ensures
        r == a + b,
{
    a + b
}

/// The low 32 bits of the number with index `n` among the [`fib`] numbers, or
/// the first one if `n` is negative.
pub fn fibonacci(n: i32) -> (r: i32)
    requires
        n <= 91,
    ensures
        r == fibonacci_of(n as int),
{
    let mut a: u64 = 1;
    let mut b: u64 = 1;
    let mut i: i32 = 0;
    while i < n
        invariant
            n <= 91,
            0 <= i,
            n >= 0 ==> i <= n,
            n < 0 ==> i == 0,
            a == fib(i as nat),
            b == fib((i + 1) as nat),
        decreases n - i,
    {
        proof {
            lemma_fib_fits();
            lemma_fib_grows((i + 2) as nat, 92);
        }
        let tmp: u64 = b;
        b = b + a;
        a = tmp;
        i = i + 1;
    }
    let low: u32 = (a % 0x1_0000_0000) as u32;
    if low < 0x8000_0000 {
        low as i32
    } else {
        (low as i64 - 0x1_0000_0000) as i32
    }
}

/// A sample person.
pub fn get_person() -> (r: Person)
    ensures
        r.name@ == "Susize"@,
        r.age == 25,
        r.email matches Some(e) && e@ == "susize@example.com"@,
        r.scores@ == seq![95u32, 87, 92],
{
    let mut scores: Vec<u32> = Vec::new();
    scores.push(95);
    scores.push(87);
    scores.push(92);
    assert(scores@ =~= seq![95u32, 87, 92]);
    Person {
        name: "Susize".to_owned(),
        age: 25,
        email: Some("susize@example.com".to_owned()),
        scores,
    }
}

/// The numbers below [`SCORES`], in order.
pub fn get_scores() -> (r: Vec<u32>)
    ensures
        r@ == Seq::new(SCORES as nat, |i: int| i as u32),
{
    let mut out: Vec<u32> = Vec::new();
    let mut i: u32 = 0;
    while i < SCORES
        invariant
            i <= SCORES,
            out@ =~= Seq::new(i as nat, |i: int| i as u32),
        decreases SCORES - i,
    {
        out.push(i);
        i = i + 1;
    }
    out
}

} // verus!
