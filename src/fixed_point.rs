//! Fixed-point decimals with eighteen fractional digits, held as `u128`
//! multiples of `SCALE`, and division rounded half to even.
use vstd::prelude::*;
use vstd::arithmetic::div_mod::lemma_fundamental_div_mod_converse;

verus! {

/// One whole unit: a decimal `x` is stored as the integer `x * SCALE`.
pub const SCALE: u128 = 1_000_000_000_000_000_000;

/// Ten to the power `i`.
pub open spec fn pow10(i: nat) -> nat
    decreases i,
{
    if i == 0 {
        1
    } else {
        10 * pow10((i - 1) as nat)
    }
}

/// The quotient `q` of a division by `d` that left remainder `r`, rounded half
/// to even: up when the remainder is more than half of `d`, or exactly half
/// and `q` is odd.
pub open spec fn round_half_even(q: int, r: int, d: int) -> int {
    if 2 * r > d || (2 * r == d && q % 2 == 1) {
        q + 1
    } else {
        q
    }
}

/// `n / d` rounded half to even.
pub open spec fn div_half_even(n: int, d: int) -> int
    recommends
        d > 0,
{
    round_half_even(n / d, n % d, d)
}

proof fn lemma_pow10_scale()
    ensures
        pow10(18) == SCALE,
{
    reveal_with_fuel(pow10, 19);
}

/// Rounds the quotient `q` of a division by `d` that left remainder `r`.
fn round_quotient(q: u128, r: u128, d: u128) -> (res: u128)
    requires
        r < d,
        q < u128::MAX,
    ensures
        res == round_half_even(q as int, r as int, d as int),
{
    let half_over = r > d - r;
    let half_exact = r == d - r;
    if half_over || (half_exact && q % 2 == 1) {
        q + 1
    } else {
        q
    }
}

/// `n / d` rounded half to even.
pub fn div_round_half_even(n: u128, d: u128) -> (res: u128)
    requires
        d > 0,
    ensures
        res == div_half_even(n as int, d as int),
{
    let q = n / d;
    let r = n % d;
    if d == 1 {
        assert(r == 0);
        return q;
    }
    assert(q <= n / 2) by (nonlinear_arith)
        requires
            q == n / d,
            d >= 2,
    ;
    round_quotient(q, r, d)
}

/// Splits `10 * r` by `d`: returns the digit `10 * r / d` and the new remainder.
fn next_digit(r: u128, d: u128) -> (res: (u128, u128))
    requires
        r < d,
    ensures
        10 * r == res.0 * d + res.1,
        res.1 < d,
        res.0 <= 10,
{
    let mut digit: u128 = 0;
    let mut rem: u128 = 0;
    let mut k: u128 = 0;
    while k < 10
        invariant
            r < d,
            k <= 10,
            k * r == digit * d + rem,
            rem < d,
            digit <= k,
        decreases 10 - k,
    {
        assert((k + 1) * r == k * r + r) by (nonlinear_arith);
        if rem >= d - r {
            rem = rem - (d - r);
            digit = digit + 1;
            assert((digit - 1) * d + d == digit * d) by (nonlinear_arith);
        } else {
            rem = rem + r;
        }
        k = k + 1;
    }
    (digit, rem)
}

/// `borrowed * SCALE / supplied` rounded half to even, for `borrowed < supplied`,
/// computed by long division so that no intermediate value exceeds `u128`.
pub fn ratio_half_even(borrowed: u128, supplied: u128) -> (res: u128)
    requires
        borrowed < supplied,
    ensures
        res == div_half_even(borrowed * SCALE, supplied as int),
        res <= SCALE,
{
    let mut q: u128 = 0;
    let mut r: u128 = borrowed;
    let mut i: u32 = 0;
    assert(pow10(0) == 1);
    proof {
        lemma_pow10_upto(0);
    }
    while i < 18
        invariant
            borrowed < supplied,
            i <= 18,
            borrowed * pow10(i as nat) == q * supplied + r,
            r < supplied,
            q < pow10(i as nat),
            pow10(i as nat) <= pow10(18),
        decreases 18 - i,
    {
        let (digit, rem) = next_digit(r, supplied);
        proof {
            let p = pow10(i as nat);
            assert(pow10((i + 1) as nat) == 10 * p);
            assert(borrowed * (10 * p) == (10 * q + digit) * supplied + rem) by (nonlinear_arith)
                requires
                    borrowed * p == q * supplied + r,
                    10 * r == digit * supplied + rem,
            ;
            let nq = 10 * q + digit;
            assert(nq * supplied <= borrowed * (10 * p));
            assert(borrowed * (10 * p) < supplied * (10 * p)) by (nonlinear_arith)
                requires
                    borrowed < supplied,
                    p >= 1,
            ;
            assert(nq < 10 * p) by (nonlinear_arith)
                requires
                    nq * supplied < supplied * (10 * p),
                    supplied > 0,
                    nq >= 0,
            ;
            lemma_pow10_upto((i + 1) as nat);
            lemma_pow10_scale();
        }
        q = 10 * q + digit;
        r = rem;
        i = i + 1;
    }
    proof {
        lemma_pow10_scale();
        lemma_fundamental_div_mod_converse(
            borrowed as int * SCALE as int,
            supplied as int,
            q as int,
            r as int,
        );
    }
    let res = round_quotient(q, r, supplied);
    proof {
        if res == q + 1 {
            // A remainder left over means the exact ratio was below `SCALE`.
            assert(q < SCALE);
        }
    }
    res
}

/// Rounded division is monotone in the dividend.
pub proof fn lemma_div_half_even_monotone(n1: int, n2: int, d: int)
    requires
        0 <= n1 <= n2,
        d > 0,
    ensures
        div_half_even(n1, d) <= div_half_even(n2, d),
{
    let q1 = n1 / d;
    let q2 = n2 / d;
    assert(q1 <= q2) by (nonlinear_arith)
        requires
            n1 <= n2,
            d > 0,
            q1 == n1 / d,
            q2 == n2 / d,
    ;
    if q1 == q2 {
        assert(n1 % d <= n2 % d) by (nonlinear_arith)
            requires
                n1 <= n2,
                d > 0,
                n1 / d == n2 / d,
        ;
    }
}

/// Nothing divided rounds to nothing.
pub proof fn lemma_div_half_even_zero(d: int)
    requires
        d > 0,
    ensures
        div_half_even(0, d) == 0,
{
    assert(0int / d == 0 && 0int % d == 0) by (nonlinear_arith)
        requires
            d > 0,
    ;
}

/// A rounded quotient never exceeds the next whole number above the exact one.
pub proof fn lemma_div_half_even_upper(n: int, d: int, bound: int)
    requires
        d > 0,
        0 <= n <= bound * d,
    ensures
        div_half_even(n, d) <= bound,
{
    let q = n / d;
    let r = n % d;
    assert(n == q * d + r && 0 <= r < d) by (nonlinear_arith)
        requires
            d > 0,
            q == n / d,
            r == n % d,
    ;
    if q > bound {
        assert(q * d >= (bound + 1) * d) by (nonlinear_arith)
            requires
                q >= bound + 1,
                d > 0,
        ;
        assert((bound + 1) * d == bound * d + d) by (nonlinear_arith);
    } else if q == bound {
        assert(r == 0);
    }
}

proof fn lemma_pow10_upto(i: nat)
    requires
        i <= 18,
    ensures
        pow10(i) <= pow10(18),
    decreases 18 - i,
{
    if i < 18 {
        lemma_pow10_upto(i + 1);
        assert(pow10(i + 1) == 10 * pow10(i));
    }
}

} // verus!
