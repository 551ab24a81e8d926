//! Computations that run on the thread pool, if there is one.
use crate::pool;
use crate::pool::PoolState;
use rayon::iter::IntoParallelIterator;
use rayon::iter::ParallelIterator;
use vstd::prelude::*;

verus! {

/// The most numbers whose squares add up to no more than 64 bits hold.
pub const SUM_LIMIT: u32 = 3_810_778;

/// The sum of the squares of the numbers below `n`.
pub open spec fn sum_squares(n: nat) -> nat
    decreases n,
{
    if n == 0 {
        0
    } else {
        sum_squares((n - 1) as nat) + (n - 1) as nat * (n - 1) as nat
    }
}

/// No number from 2 up to `x` divides `x`.
pub open spec fn has_no_divisor(x: nat) -> bool {
    forall|d: nat| 2 <= d < x ==> #[trigger] (x % d) != 0
}

/// How many of the numbers from `start` up to `n` are prime.
pub open spec fn primes_between(start: nat, n: nat) -> nat
    decreases n,
{
    if n <= start {
        0
    } else {
        primes_between(start, (n - 1) as nat) + if has_no_divisor((n - 1) as nat) {
            1nat
        } else {
            0
        }
    }
}

/// How many of the numbers below `n` are prime.
pub open spec fn primes_below(n: nat) -> nat {
    primes_between(2, n)
}

/// A number from 2 on is counted where it is not the product of two such numbers.
pub proof fn law_primes_are_no_products(x: nat)
    requires
        x >= 2,
    ensures
        primes_between(x, x + 1) == if exists|a: nat, b: nat|
            a >= 2 && b >= 2 && #[trigger] (a * b) == x {
            0nat
        } else {
            1
        },
{
    assert(primes_between(x, x) == 0);
    if exists|a: nat, b: nat| a >= 2 && b >= 2 && #[trigger] (a * b) == x {
        let (a, b) = choose|a: nat, b: nat| a >= 2 && b >= 2 && #[trigger] (a * b) == x;
        assert(2 <= a < x) by (nonlinear_arith)
            requires
                a >= 2,
                b >= 2,
                a * b == x,
        ;
        vstd::arithmetic::div_mod::lemma_mod_multiples_basic(b as int, a as int);
        assert(a * b == b * a) by (nonlinear_arith);
        assert(x % a == 0);
    } else if !has_no_divisor(x) {
        let d = choose|d: nat| 2 <= d < x && #[trigger] (x % d) == 0;
        let q = x / d;
        vstd::arithmetic::div_mod::lemma_fundamental_div_mod(x as int, d as int);
        assert(q >= 2) by (nonlinear_arith)
            requires
                x == d * q,
                2 <= d < x,
        ;
        assert(d * q == x);
    }
}

/// What is counted in two ranges, one behind the other, is what is counted in both
/// together, and nothing is counted in none.
pub proof fn law_counts_add_up(a: nat, b: nat, c: nat)
    requires
        a <= b <= c,
    ensures
        primes_between(a, c) == primes_between(a, b) + primes_between(b, c),
        primes_between(a, a) == 0,
        primes_below(c) == primes_between(2, c),
    decreases c,
{
    if b < c {
        law_counts_add_up(a, b, (c - 1) as nat);
    }
}

/// Six times the sum of the squares below `n` is `(n - 1) * n * (2 * n - 1)`.
pub proof fn law_sum_of_squares(n: nat)
    ensures
        6 * sum_squares(n) == (n - 1) * n * (2 * n - 1),
    decreases n,
{
    if n > 0 {
        let m = n - 1;
        law_sum_of_squares(m as nat);
        assert((m - 1) * m * (2 * m - 1) + 6 * (m * m) == m * (m + 1) * (2 * m + 1))
            by (nonlinear_arith);
        assert(sum_squares(n) == sum_squares(m as nat) + m * m);
        assert((n - 1) * n * (2 * n - 1) == m * (m + 1) * (2 * m + 1));
    } else {
        assert((n - 1) * n * (2 * n - 1) == 0) by (nonlinear_arith)
            requires
                n == 0,
        ;
    }
}

/// The sum of the squares below `n` fits into 64 bits exactly where `n` is not
/// above [`SUM_LIMIT`].
pub proof fn law_sum_fits(n: nat)
    ensures
        sum_squares(n) <= u64::MAX <==> n <= SUM_LIMIT,
{
    law_sum_of_squares(SUM_LIMIT as nat);
    law_sum_of_squares((SUM_LIMIT + 1) as nat);
    assert((3_810_778 - 1) * 3_810_778 * (2 * 3_810_778 - 1) == 110_680_413_426_450_976_830int)
        by (nonlinear_arith);
    assert((3_810_779 - 1) * 3_810_779 * (2 * 3_810_779 - 1) == 110_680_500_558_624_768_534int)
        by (nonlinear_arith);
    if n <= SUM_LIMIT {
        lemma_sum_grows(n, SUM_LIMIT as nat);
    } else {
        lemma_sum_grows((SUM_LIMIT + 1) as nat, n);
    }
}

proof fn lemma_sum_grows(i: nat, n: nat)
    requires
        i <= n,
    ensures
        sum_squares(i) <= sum_squares(n),
    decreases n,
{
    if i < n {
        lemma_sum_grows(i, (n - 1) as nat);
    }
}

proof fn lemma_few_primes(n: nat)
    ensures
        primes_below(n) <= n,
    decreases n,
{
    if n > 2 {
        lemma_few_primes((n - 1) as nat);
    }
}

/// A number with a divisor has one whose square is not above it.
proof fn lemma_small_divisor(x: nat, d: nat)
    requires
        2 <= d < x,
        x % d == 0,
    ensures
        exists|e: nat| 2 <= e < x && e * e <= x && #[trigger] (x % e) == 0,
{
    let q = x / d;
    vstd::arithmetic::div_mod::lemma_fundamental_div_mod(x as int, d as int);
    assert(x == d * q);
    assert(q >= 2) by (nonlinear_arith)
        requires
            x == d * q,
            2 <= d < x,
    ;
    assert(q < x) by (nonlinear_arith)
        requires
            x == d * q,
            2 <= d,
            q >= 2,
    ;
    vstd::arithmetic::div_mod::lemma_mod_multiples_basic(d as int, q as int);
    assert(x % q == 0);
    if d <= q {
        assert(d * d <= x) by (nonlinear_arith)
            requires
                x == d * q,
                d <= q,
        ;
        assert(x % d == 0);
    } else {
        assert(q * q <= x) by (nonlinear_arith)
            requires
                x == d * q,
                q <= d,
        ;
    }
}

/// Where no number up to the root of `x` divides it, none does.
proof fn lemma_no_small_divisor(x: nat, d: nat)
    requires
        2 <= d,
        d * d > x,
        forall|e: nat| 2 <= e < d && e < x ==> #[trigger] (x % e) != 0,
    ensures
        has_no_divisor(x),
{
    assert forall|e: nat| 2 <= e < x implies #[trigger] (x % e) != 0 by {
        if x % e == 0 {
            lemma_small_divisor(x, e);
            let f = choose|f: nat| 2 <= f < x && f * f <= x && #[trigger] (x % f) == 0;
            if f >= d {
                assert(d * d <= f * f) by (nonlinear_arith)
                    requires
                        2 <= d <= f,
                ;
            }
        }
    }
}

/// Is `x` divided by none of the numbers between 1 and itself?
pub fn is_prime(x: u32) -> (r: bool)
    ensures
        r == has_no_divisor(x as nat),
{
    let n: u64 = x as u64;
    let mut d: u64 = 2;
    while d <= n
        invariant
            n == x,
            2 <= d <= 0x1_0000_0000,
            forall|e: nat| 2 <= e < d && e < x ==> #[trigger] (x as nat % e) != 0,
        decreases n + 1 - d,
    {
        assert(d * d <= 0xffff_ffff * 0xffff_ffff) by (nonlinear_arith)
            requires
                d <= 0xffff_ffff,
        ;
        if d * d > n {
            proof {
                lemma_no_small_divisor(x as nat, d as nat);
            }
            return true;
        }
        if n % d == 0 {
            assert(x as nat % d as nat == 0);
            assert(d < n) by (nonlinear_arith)
                requires
                    d * d <= n,
                    2 <= d,
            ;
            return false;
        }
        assert(x as nat % d as nat != 0);
        d = d + 1;
    }
    true
}

/// The square of `x`.
pub fn square(x: u64) -> (r: u64)
    requires
        x * x <= u64::MAX,
    ensures
        r == x * x,
{
    x * x
}

/// Runs `map` and `sum` of `rayon` over the numbers below `n`, with [`square`].
/// They apply the function to each number and add up the results, in an order
/// that does not matter to the sum. Claims that the result is that sum.
#[verifier::external_body]
fn par_sum_squares(n: u64) -> (r: u64)
    requires
        sum_squares(n as nat) <= u64::MAX,
    ensures
        r == sum_squares(n as nat),
{
    (0..n).into_par_iter().map(|x| square(x)).sum()
}

/// Runs `filter` and `count` of `rayon` over the numbers from `start` up to `n`,
/// with [`is_prime`]. They count the numbers for which the function holds.
/// Claims that the result is that count.
#[verifier::external_body]
fn par_count_primes(start: u32, n: u32) -> (r: usize)
    ensures
        r == primes_between(start as nat, n as nat),
{
    (start..n).into_par_iter().filter(|&x| is_prime(x)).count()
}

/// The sum of the squares of the numbers below `n`.
pub fn parallel_sum_squares(state: &PoolState, n: u32) -> (r: u64)
    requires
        n <= SUM_LIMIT,
    ensures
        r == sum_squares(n as nat),
{
    proof {
        law_sum_fits(n as nat);
    }
    let end: u64 = n as u64;
    if pool::is_threaded(state) {
        let job = move || -> (s: u64)
            requires
                sum_squares(end as nat) <= u64::MAX,
            ensures
                s == sum_squares(end as nat),
            { par_sum_squares(end) };
        return pool::install(state, job);
    }
    let mut sum: u64 = 0;
    let mut x: u64 = 0;
    while x < end
        invariant
            x <= end <= u32::MAX,
            sum == sum_squares(x as nat),
            sum_squares(end as nat) <= u64::MAX,
        decreases end - x,
    {
        proof {
            lemma_sum_grows((x + 1) as nat, end as nat);
            assert(sum_squares((x + 1) as nat) == sum_squares(x as nat) + x * x);
        }
        sum = sum + square(x);
        x = x + 1;
    }
    sum
}

/// How many of the numbers below `n` are prime.
pub fn parallel_count_primes(state: &PoolState, n: u32) -> (r: u32)
    ensures
        r == primes_below(n as nat),
{
    proof {
        lemma_few_primes(n as nat);
    }
    if pool::is_threaded(state) {
        let job = move || -> (c: usize)
            ensures
                c == primes_below(n as nat),
            { par_count_primes(2, n) };
        return pool::install(state, job) as u32;
    }
    let mut count: u32 = 0;
    let mut x: u32 = 2;
    while x < n
        invariant
            2 <= x,
            n > 2 ==> x <= n,
            n <= 2 ==> x == 2,
            count == primes_below(x as nat),
            count <= x,
        decreases n - x,
    {
        proof {
            lemma_few_primes((x + 1) as nat);
        }
        if is_prime(x) {
            count = count + 1;
        }
        x = x + 1;
    }
    count
}

} // verus!
