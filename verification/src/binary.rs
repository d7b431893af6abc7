//! Numbers with 53 binary digits. Each result is the number of this kind that is nearest to the
//! exact one, and of two that are as near, the one with an even last digit.
use vstd::arithmetic::div_mod::{lemma_div_denominator, lemma_fundamental_div_mod_converse};
use vstd::arithmetic::power2::{
    lemma2_to64, lemma2_to64_rest, lemma_pow2_adds, lemma_pow2_pos, lemma_pow2_strictly_increases,
    lemma_pow2_unfold, pow2,
};
use vstd::prelude::*;

verus! {

/// `digits` times two to the `exponent`.
#[derive(Debug, Clone, Copy, PartialEq, Eq, Structural)]
pub struct Binary {
    pub digits: u64,
    pub exponent: i32,
}

/// `digits` times two to the `exponent`, without limits.
pub struct Number {
    pub digits: nat,
    pub exponent: int,
}

impl View for Binary {
    type V = Number;

    open spec fn view(&self) -> Number {
        Number { digits: self.digits as nat, exponent: self.exponent as int }
    }
}

/// The lowest number of 53 binary digits.
#[verifier::inline]
pub open spec fn lowest() -> nat {
    0x10_0000_0000_0000
}

/// What lies above all numbers of 53 binary digits.
#[verifier::inline]
pub open spec fn above() -> nat {
    0x20_0000_0000_0000
}

/// The whole number nearest to a fraction, and the even one of two that are as near.
pub open spec fn nearest(n: nat, d: nat) -> nat {
    let below = n / d;
    let over = n % d;
    if 2 * over < d || (2 * over == d && below % 2 == 0) {
        below
    } else {
        below + 1
    }
}

/// A fraction with 53 binary digits before its point, rounded to these.
pub open spec fn settled(n: nat, d: nat, exponent: int) -> Number {
    let digits = nearest(n, d);
    if digits == above() {
        Number { digits: lowest(), exponent: exponent + 1 }
    } else {
        Number { digits, exponent }
    }
}

/// A fraction with fewer digits before its point, rounded.
pub open spec fn grown(n: nat, d: nat, exponent: int) -> Number
    decreases
            if n == 0 || n >= lowest() * d {
                0
            } else {
                lowest() * d - n
            },
{
    if n == 0 || n >= lowest() * d {
        settled(n, d, exponent)
    } else {
        grown(2 * n, d, exponent - 1)
    }
}

/// A fraction with more digits before its point, rounded.
pub open spec fn shrunk(n: nat, d: nat, exponent: int) -> Number
    decreases
            if d == 0 || n < above() * d {
                0
            } else {
                n + 1 - above() * d
            },
{
    if d == 0 || n < above() * d {
        settled(n, d, exponent)
    } else {
        shrunk(n, 2 * d, exponent + 1)
    }
}

/// `n / d` times two to the `exponent`, rounded to 53 binary digits.
pub open spec fn rounded(n: nat, d: nat, exponent: int) -> Number {
    if n == 0 {
        Number { digits: 0, exponent: 0 }
    } else if n < lowest() * d {
        grown(n, d, exponent)
    } else {
        shrunk(n, d, exponent)
    }
}

/// A whole number, rounded.
pub open spec fn number(n: nat) -> Number {
    rounded(n, 1, 0)
}

/// The product of two numbers, rounded.
pub open spec fn product(a: Number, b: Number) -> Number {
    rounded(a.digits * b.digits, 1, a.exponent + b.exponent)
}

/// The quotient of two numbers, rounded.
pub open spec fn quotient(a: Number, b: Number) -> Number {
    rounded(a.digits, b.digits, a.exponent - b.exponent)
}

/// The whole part of a number.
pub open spec fn whole_of(a: Number) -> nat {
    if a.exponent >= 0 {
        a.digits * pow2(a.exponent as nat)
    } else {
        a.digits / pow2((-a.exponent) as nat)
    }
}

/// That a number has 53 binary digits or is zero, and is neither very large nor very small.
pub open spec fn in_bounds(a: Number, reach: int) -> bool {
    &&& a.digits == 0 || lowest() <= a.digits < above()
    &&& -reach <= a.exponent <= reach
}

/// That a fraction with 53 binary digits before its point has no more when it is rounded.
proof fn lemma_settled(n: nat, d: nat, exponent: int)
    requires
        d > 0,
        lowest() * d <= n < above() * d,
    ensures
        lowest() <= settled(n, d, exponent).digits < above(),
        exponent <= settled(n, d, exponent).exponent <= exponent + 1,
        lowest() <= nearest(n, d) <= above(),
{
    let q = n / d;
    assert(lowest() <= q < above()) by (nonlinear_arith)
        requires
            d > 0,
            lowest() * d <= n < above() * d,
            q == n / d,
    ;
}

/// `n / d` times two to the `exponent`, rounded to 53 binary digits.
fn round(n: u128, d: u128, exponent: i32) -> (r: Binary)
    requires
        0 < d < above(),
        n < above() * above(),
        -10_000 <= exponent <= 10_000,
    ensures
        r@ == rounded(n as nat, d as nat, exponent as int),
        n > 0 ==> r.digits > 0 && in_bounds(r@, 10_120),
        n > 0 ==> exponent - 120 <= r.exponent <= exponent + 120,
        n == 0 ==> r.digits == 0 && r.exponent == 0,
{
    if n == 0 {
        return Binary { digits: 0, exponent: 0 };
    }
    let mut n: u128 = n;
    let mut d: u128 = d;
    let mut e: i32 = exponent;
    let ghost n0 = n as nat;
    let ghost d0 = d as nat;
    let ghost mut steps: nat = 0;
    proof {
        lemma2_to64();
        lemma2_to64_rest();
        lemma_pow2_adds(53, 53);
        lemma_pow2_unfold(107);
        lemma_pow2_unfold(108);
    }
    if n < 0x10_0000_0000_0000 * d {
        while n < 0x10_0000_0000_0000 * d
            invariant
                0 < d < above(),
                0 < n < above() * d,
                d == d0,
                -10_000 <= exponent <= 10_000,
                e == exponent - steps,
                n >= pow2(steps),
                pow2(106) == above() * above(),
                steps <= 106,
                grown(n as nat, d as nat, e as int) == grown(n0, d0, exponent as int),
            decreases above() * d - n,
        {
            proof {
                assert(lowest() * d < above() * above());
                if steps >= 106 {
                    if steps > 106 {
                        lemma_pow2_strictly_increases(106, steps);
                    }
                }
                lemma_pow2_unfold(steps + 1);
                steps = steps + 1;
            }
            n = 2 * n;
            e = e - 1;
        }
    } else {
        while n >= 0x20_0000_0000_0000 * d
            invariant
                0 < d,
                lowest() * d <= n < above() * above(),
                n == n0,
                -10_000 <= exponent <= 10_000,
                e == exponent + steps,
                d >= pow2(steps),
                pow2(106) == above() * above(),
                steps <= 106,
                shrunk(n as nat, d as nat, e as int) == shrunk(n0, d0, exponent as int),
            decreases n - lowest() * d,
        {
            proof {
                if steps >= 106 {
                    if steps > 106 {
                        lemma_pow2_strictly_increases(106, steps);
                    }
                }
                lemma_pow2_unfold(steps + 1);
                steps = steps + 1;
            }
            d = 2 * d;
            e = e + 1;
        }
    }
    proof {
        lemma_settled(n as nat, d as nat, e as int);
    }
    let below: u128 = n / d;
    let over: u128 = n % d;
    let digits: u128 = if 2 * over < d || (2 * over == d && below % 2 == 0) {
        below
    } else {
        below + 1
    };
    if digits == 0x20_0000_0000_0000 {
        Binary { digits: 0x10_0000_0000_0000, exponent: e + 1 }
    } else {
        Binary { digits: digits as u64, exponent: e }
    }
}

/// That a common factor of two does not change the nearest whole number.
proof fn lemma_nearest_scales(n: nat, d: nat)
    requires
        d > 0,
    ensures
        nearest(2 * n, 2 * d) == nearest(n, d),
{
    let q = n / d;
    let r = n % d;
    assert(n == d * q + r && r < d) by (nonlinear_arith)
        requires
            d > 0,
            q == n / d,
            r == n % d,
    ;
    assert(2 * n == q * (2 * d) + 2 * r) by (nonlinear_arith)
        requires
            n == d * q + r,
    ;
    lemma_fundamental_div_mod_converse(2 * n as int, 2 * d as int, q as int, 2 * r as int);
}

/// That a common factor of two does not change a fraction with more digits before its point.
proof fn lemma_shrunk_scales(n: nat, d: nat, exponent: int)
    requires
        d > 0,
    ensures
        shrunk(2 * n, 2 * d, exponent) == shrunk(n, d, exponent),
    decreases
            if n < above() * d {
                0
            } else {
                n + 1 - above() * d
            },
{
    if n < above() * d {
        lemma_nearest_scales(n, d);
    } else {
        lemma_shrunk_scales(n, 2 * d, exponent + 1);
    }
}

/// That doubling a fraction and taking one off the exponent changes nothing.
proof fn lemma_double(n: nat, d: nat, exponent: int)
    requires
        d > 0,
    ensures
        rounded(2 * n, d, exponent - 1) == rounded(n, d, exponent),
{
    reveal_with_fuel(grown, 3);
    if n >= lowest() * d {
        assert(shrunk(2 * n, d, exponent - 1) == shrunk(2 * n, 2 * d, exponent));
        lemma_shrunk_scales(n, d, exponent);
    }
}

/// That halving a fraction and putting one on the exponent changes nothing.
proof fn lemma_halve(n: nat, d: nat, exponent: int)
    requires
        d > 0,
    ensures
        rounded(n, 2 * d, exponent + 1) == rounded(n, d, exponent),
{
    lemma_double(n, 2 * d, exponent + 1);
    if n > 0 {
        lemma_shrunk_scales(n, d, exponent);
        if n < lowest() * d {
            lemma_grown_scales(n, d, exponent);
        }
    }
}

/// That a common factor of two does not change a fraction with fewer digits before its point.
proof fn lemma_grown_scales(n: nat, d: nat, exponent: int)
    requires
        d > 0,
    ensures
        grown(2 * n, 2 * d, exponent) == grown(n, d, exponent),
    decreases
            if n == 0 || n >= lowest() * d {
                0
            } else {
                lowest() * d - n
            },
{
    if n == 0 || n >= lowest() * d {
        lemma_nearest_scales(n, d);
    } else {
        lemma_grown_scales(2 * n, d, exponent - 1);
    }
}

/// That a factor of two to the `k` can be taken off the exponent.
proof fn lemma_power(n: nat, d: nat, exponent: int, k: nat)
    requires
        d > 0,
    ensures
        rounded(n * pow2(k), d, exponent - k) == rounded(n, d, exponent),
    decreases k,
{
    lemma2_to64();
    assert(n * 1 == n);
    if k > 0 {
        lemma_power(n, d, exponent, (k - 1) as nat);
        lemma_pow2_unfold(k);
        let p = pow2((k - 1) as nat);
        assert(n * (2 * p) == 2 * (n * p)) by (nonlinear_arith);
        lemma_double(n * p, d, exponent - (k - 1));
    }
}

/// That a divisor of two to the `k` can be put on the exponent.
proof fn lemma_power_below(n: nat, d: nat, exponent: int, k: nat)
    requires
        d > 0,
    ensures
        d * pow2(k) > 0,
        rounded(n, d * pow2(k), exponent + k) == rounded(n, d, exponent),
    decreases k,
{
    lemma2_to64();
    assert(d * 1 == d);
    if k > 0 {
        lemma_power_below(n, d, exponent, (k - 1) as nat);
        lemma_pow2_unfold(k);
        let p = pow2((k - 1) as nat);
        assert(d * (2 * p) == 2 * (d * p)) by (nonlinear_arith);
        lemma_halve(n, d * p, exponent + (k - 1));
    }
}

/// That a whole number of at most 53 binary digits is kept as it is.
proof fn lemma_grown_whole(n: nat, exponent: int) -> (k: nat)
    requires
        0 < n < above(),
    ensures
        grown(n, 1, exponent) == (Number { digits: n * pow2(k), exponent: exponent - k }),
        n * pow2(k) >= lowest(),
    decreases above() - n,
{
    lemma2_to64();
    if n >= lowest() {
        assert(nearest(n, 1) == n);
        0
    } else {
        let k = lemma_grown_whole(2 * n, exponent - 1);
        lemma_pow2_unfold(k + 1);
        let p = pow2(k);
        assert(2 * n * p == n * (2 * p)) by (nonlinear_arith);
        k + 1
    }
}

/// That a whole number of at most 53 binary digits is kept as it is.
proof fn lemma_whole(n: nat) -> (k: nat)
    requires
        0 < n < above(),
    ensures
        number(n) == (Number { digits: n * pow2(k), exponent: -(k as int) }),
        n * pow2(k) > 0,
{
    lemma_grown_whole(n, 0)
}

/// The product of two whole numbers is exact where it has at most 53 binary digits.
pub proof fn law_products_are_exact(a: nat, b: nat)
    requires
        a * b < above(),
        a < above(),
        b < above(),
    ensures
        product(number(a), number(b)) == number(a * b),
{
    if a == 0 || b == 0 {
        assert(a * b == 0) by (nonlinear_arith)
            requires
                a == 0 || b == 0,
        ;
        assert(number(a).digits * number(b).digits == 0) by (nonlinear_arith)
            requires
                number(a).digits == 0 || number(b).digits == 0,
        ;
    } else {
        let j = lemma_whole(a);
        let k = lemma_whole(b);
        lemma_pow2_adds(j, k);
        let p = pow2(j);
        let q = pow2(k);
        assert((a * p) * (b * q) == (a * b) * (p * q)) by (nonlinear_arith);
        lemma_power(a * b, 1, 0, j + k);
    }
}

/// That the quotient of two whole numbers of at most 53 binary digits is their fraction, rounded.
pub proof fn lemma_quotient(a: nat, b: nat)
    requires
        0 < a < above(),
        0 < b < above(),
    ensures
        quotient(number(a), number(b)) == rounded(a, b, 0),
{
    let j = lemma_whole(a);
    let k = lemma_whole(b);
    lemma_power(a, b, 0, j);
    lemma_power_below(a * pow2(j), b, -(j as int), k);
}

/// That rounding a fraction with fewer digits before its point keeps its whole part.
proof fn lemma_grown_part(n: nat, d: nat, j: nat)
    requires
        0 < n < above(),
        d > 0,
        n * pow2(j) < above() * d,
        j == 0 ==> n < lowest() * d,
    ensures
        whole_of(grown(n * pow2(j), d, -(j as int))) == n / d,
    decreases above() * d - n * pow2(j),
{
    lemma_pow2_pos(j);
    lemma2_to64();
    let p = pow2(j);
    let big = n * p;
    assert(n * 1 == n);
    assert(big > 0) by (nonlinear_arith)
        requires
            big == n * p,
            n > 0,
            p > 0,
    ;
    if big < lowest() * d {
        lemma_pow2_unfold(j + 1);
        assert(n * (2 * p) == 2 * big) by (nonlinear_arith)
            requires
                big == n * p,
        ;
        lemma_grown_part(n, d, j + 1);
    } else {
        let q = nearest(big, d);
        lemma_settled(big, d, -(j as int));
        lemma_whole_part(n, d, p, q);
        lemma_pow2_unfold(j);
        if q == above() {
            let half = pow2((j - 1) as nat);
            if j == 1 {
                lemma2_to64();
            }
            assert(lowest() / half == (2 * lowest()) / (2 * half)) by (nonlinear_arith)
                requires
                    half > 0,
            ;
        }
    }
}

/// That the whole number nearest to `n * p / d` has, over `p`, the whole part of `n / d`, if it
/// has enough digits.
proof fn lemma_whole_part(n: nat, d: nat, p: nat, q: nat)
    requires
        d > 0,
        p > 0,
        n < above(),
        lowest() * d <= n * p,
        q == nearest(n * p, d),
    ensures
        q / p == n / d,
{
    let big = n * p;
    let k = n / d;
    let r = n % d;
    let below = big / d;
    let over = big % d;
    assert(n == d * k + r && r < d) by (nonlinear_arith)
        requires
            d > 0,
            k == n / d,
            r == n % d,
    ;
    assert(big == d * below + over && over < d) by (nonlinear_arith)
        requires
            d > 0,
            below == big / d,
            over == big % d,
    ;
    assert(below >= k * p) by (nonlinear_arith)
        requires
            big == n * p,
            n == d * k + r,
            big == d * below + over,
            over < d,
            d > 0,
    ;
    assert(q < (k + 1) * p) by {
        if q >= (k + 1) * p {
            assert(d * q >= d * ((k + 1) * p)) by (nonlinear_arith)
                requires
                    q >= (k + 1) * p,
                    d > 0,
            ;
            assert(d * ((k + 1) * p) >= big + p) by (nonlinear_arith)
                requires
                    big == n * p,
                    n == d * k + r,
                    r < d,
                    p > 0,
            ;
            assert(d * (below + 1) == d * below + d) by (nonlinear_arith);
            assert(2 * (d * q - big) <= d);
            assert(n * p < above() * p) by (nonlinear_arith)
                requires
                    n < above(),
                    p > 0,
            ;
        }
    }
    assert((k + 1) * p == k * p + p) by (nonlinear_arith);
    lemma_fundamental_div_mod_converse(q as int, p as int, k as int, q - k * p);
}

/// The quotient of two whole numbers of at most 53 binary digits has the whole part that it has
/// without rounding.
pub proof fn law_quotients_keep_the_whole_part(a: nat, b: nat)
    requires
        a < above(),
        0 < b < above(),
    ensures
        whole_of(quotient(number(a), number(b))) == a / b,
{
    lemma2_to64();
    if a == 0 {
        assert(0nat / b == 0) by (nonlinear_arith)
            requires
                b > 0,
        ;
    } else {
        lemma_quotient(a, b);
        assert(a * 1 == a);
        if a < lowest() * b {
            lemma_grown_part(a, b, 0);
        } else {
            assert(b == 1);
            assert(nearest(a, 1) == a);
        }
    }
}

/// That `b` is nearly `a`: they differ by no more than one part of `a` in two to the 53rd.
pub open spec fn is_near(a: int, b: int) -> bool {
    -a <= (a - b) * above() <= a
}

/// A number as a multiple of two to the `-k`.
pub open spec fn scaled(a: Number, k: int) -> int {
    (a.digits * pow2((k + a.exponent) as nat)) as int
}

/// That a fraction with 53 binary digits before its point is nearly the same when it is rounded.
proof fn lemma_settled_near(n: nat, d: nat, exponent: int, k: int)
    requires
        d > 0,
        lowest() * d <= n < above() * d,
        k + exponent >= 0,
    ensures
        is_near(
            (n * pow2((k + exponent) as nat)) as int,
            scaled(settled(n, d, exponent), k) * d,
        ),
{
    let r = settled(n, d, exponent);
    let q = nearest(n, d);
    let p = pow2((k + exponent) as nat) as int;
    lemma_pow2_pos((k + exponent) as nat);
    lemma_pow2_unfold((k + exponent + 1) as nat);
    let below = n / d;
    let over = n % d;
    assert(n == d * below + over && 0 <= over < d) by (nonlinear_arith)
        requires
            d > 0,
            below == n / d,
            over == n % d,
    ;
    assert(d * (below + 1) == d * below + d) by (nonlinear_arith);
    assert(q * d == d * q) by (nonlinear_arith);
    let diff = n - q * d;
    assert(-d <= 2 * diff <= d);
    assert(scaled(r, k) == q * p) by {
        if q == above() {
            assert(lowest() * (2 * p) == above() * p);
        }
    }
    let a = n * p;
    let b = q * p * d;
    assert(a - b == diff * p) by (nonlinear_arith)
        requires
            a == n * p,
            b == q * p * d,
            diff == n - q * d,
    ;
    assert(-n <= diff * above() <= n);
    assert(-(n * p) <= diff * p * above() <= n * p) by (nonlinear_arith)
        requires
            -n <= diff * above() <= n,
            p > 0,
    ;
}

/// That a fraction with fewer digits before its point is nearly the same when it is rounded.
proof fn lemma_grown_near(n: nat, d: nat, exponent: int, k: int)
    requires
        d > 0,
        0 < n < above() * d,
        k + grown(n, d, exponent).exponent >= 1,
    ensures
        grown(n, d, exponent).exponent <= exponent + 1,
        is_near(
            (n * pow2((k + exponent) as nat)) as int,
            scaled(grown(n, d, exponent), k) * d,
        ),
    decreases above() * d - n,
{
    if n >= lowest() * d {
        lemma_settled(n, d, exponent);
        lemma_settled_near(n, d, exponent, k);
    } else {
        lemma_grown_near(2 * n, d, exponent - 1, k);
        lemma_pow2_unfold((k + exponent) as nat);
        let p = pow2((k + exponent - 1) as nat);
        assert(2 * n * p == n * (2 * p)) by (nonlinear_arith);
    }
}

/// That a fraction with more digits before its point is nearly the same when it is rounded.
proof fn lemma_shrunk_near(n: nat, d: nat, exponent: int, k: int)
    requires
        d > 0,
        lowest() * d <= n,
        k + exponent >= 0,
    ensures
        shrunk(n, d, exponent).exponent >= exponent,
        is_near(
            (n * pow2((k + exponent) as nat)) as int,
            scaled(shrunk(n, d, exponent), k) * d,
        ),
    decreases
            if n < above() * d {
                0
            } else {
                n + 1 - above() * d
            },
{
    if n < above() * d {
        lemma_settled(n, d, exponent);
        lemma_settled_near(n, d, exponent, k);
    } else {
        lemma_shrunk_near(n, 2 * d, exponent + 1, k);
        lemma_pow2_unfold((k + exponent + 1) as nat);
        let p = pow2((k + exponent) as nat) as int;
        let s = scaled(shrunk(n, d, exponent), k);
        let a = n * p;
        let b = s * d;
        assert(n * (2 * p) == 2 * a && s * (2 * d) == 2 * b) by (nonlinear_arith)
            requires
                a == n * p,
                b == s * d,
        ;
        assert((2 * a - 2 * b) * above() == 2 * ((a - b) * above()));
    }
}

/// Rounding to 53 binary digits changes a number by no more than one part in two to the 53rd.
pub proof fn law_rounded_is_near(n: nat, d: nat, exponent: int, k: int)
    requires
        n > 0,
        d > 0,
        k + exponent >= 0,
        k + rounded(n, d, exponent).exponent >= 1,
    ensures
        is_near(
            (n * pow2((k + exponent) as nat)) as int,
            scaled(rounded(n, d, exponent), k) * d,
        ),
{
    if n < lowest() * d {
        lemma_grown_near(n, d, exponent, k);
    } else {
        lemma_shrunk_near(n, d, exponent, k);
    }
}

/// That a number which is not zero is not rounded to zero.
pub proof fn lemma_rounded_positive(n: nat, d: nat, exponent: int)
    requires
        n > 0,
        d > 0,
    ensures
        rounded(n, d, exponent).digits > 0,
{
    if n < lowest() * d {
        lemma_grown_positive(n, d, exponent);
    } else {
        lemma_shrunk_positive(n, d, exponent);
    }
}

/// That a fraction with fewer digits before its point is not rounded to zero.
proof fn lemma_grown_positive(n: nat, d: nat, exponent: int)
    requires
        d > 0,
        0 < n < above() * d,
    ensures
        grown(n, d, exponent).digits > 0,
    decreases above() * d - n,
{
    if n >= lowest() * d {
        lemma_settled(n, d, exponent);
    } else {
        lemma_grown_positive(2 * n, d, exponent - 1);
    }
}

/// That a fraction with more digits before its point is not rounded to zero.
proof fn lemma_shrunk_positive(n: nat, d: nat, exponent: int)
    requires
        d > 0,
        lowest() * d <= n,
    ensures
        shrunk(n, d, exponent).digits > 0,
    decreases
            if n < above() * d {
                0
            } else {
                n + 1 - above() * d
            },
{
    if n < above() * d {
        lemma_settled(n, d, exponent);
    } else {
        lemma_shrunk_positive(n, 2 * d, exponent + 1);
    }
}

/// That a number which is multiplied by a whole number of at most 53 binary digits is multiplied
/// before it is rounded.
pub proof fn lemma_times_whole(a: Number, n: nat)
    requires
        0 < n < above(),
        a.digits > 0,
    ensures
        product(a, number(n)) == rounded(a.digits * n, 1, a.exponent),
{
    let k = lemma_whole(n);
    let d = a.digits;
    let p = pow2(k);
    assert(d * (n * p) == (d * n) * p) by (nonlinear_arith);
    lemma_power(d * n, 1, a.exponent, k);
}

/// That the whole part of a number goes into it, and one more does not.
pub proof fn lemma_whole_bounds(a: Number, k: int)
    requires
        k >= 0,
        k + a.exponent >= 0,
    ensures
        whole_of(a) * pow2(k as nat) <= scaled(a, k) < (whole_of(a) + 1) * pow2(k as nat),
{
    let w = whole_of(a);
    lemma_pow2_pos(k as nat);
    if a.exponent >= 0 {
        lemma_pow2_adds(a.exponent as nat, k as nat);
        let d = a.digits;
        let p = pow2(a.exponent as nat);
        let q = pow2(k as nat);
        assert(d * (p * q) == d * p * q) by (nonlinear_arith);
        assert(w * q < (w + 1) * q) by (nonlinear_arith)
            requires
                q > 0,
        ;
    } else {
        let m = (-a.exponent) as nat;
        lemma_pow2_adds(m, (k + a.exponent) as nat);
        lemma_pow2_pos(m);
        lemma_pow2_pos((k + a.exponent) as nat);
        let d = a.digits;
        let p = pow2(m);
        let q = pow2((k + a.exponent) as nat);
        assert(w * p <= d < (w + 1) * p) by (nonlinear_arith)
            requires
                w == d / p,
                p > 0,
        ;
        assert(w * (p * q) <= d * q < (w + 1) * (p * q)) by (nonlinear_arith)
            requires
                w * p <= d < (w + 1) * p,
                q > 0,
        ;
    }
}

impl Binary {
    /// A whole number, rounded.
    pub fn of(n: u64) -> (r: Binary)
        ensures
            r@ == number(n as nat),
            in_bounds(r@, 120),
            n > 0 ==> r.digits > 0,
    {
        round(n as u128, 1, 0)
    }

    /// The product of two numbers, rounded.
    pub fn times(self, other: Binary) -> (r: Binary)
        requires
            in_bounds(self@, 1000),
            in_bounds(other@, 1000),
        ensures
            r@ == product(self@, other@),
            in_bounds(r@, 10_120),
            r.exponent <= self.exponent + other.exponent + 120 || r.exponent == 0,
            r.exponent >= self.exponent + other.exponent - 120 || r.exponent == 0,
            self.digits > 0 && other.digits > 0 ==> r.digits > 0,
    {
        assert(self.digits * other.digits < above() * above() && (self.digits > 0
            && other.digits > 0 ==> self.digits * other.digits > 0)) by (nonlinear_arith)
            requires
                self.digits < above(),
                other.digits < above(),
        ;
        round(self.digits as u128 * other.digits as u128, 1, self.exponent + other.exponent)
    }

    /// The quotient of two numbers, rounded.
    pub fn over(self, other: Binary) -> (r: Binary)
        requires
            in_bounds(self@, 1000),
            in_bounds(other@, 1000),
            other.digits > 0,
        ensures
            r@ == quotient(self@, other@),
            in_bounds(r@, 10_120),
            r.exponent <= self.exponent - other.exponent + 120 || r.exponent == 0,
            r.exponent >= self.exponent - other.exponent - 120 || r.exponent == 0,
    {
        round(self.digits as u128, other.digits as u128, self.exponent - other.exponent)
    }

    /// The whole part of a number, as far as 64 bits hold it.
    pub fn whole(self) -> (r: u64)
        requires
            in_bounds(self@, 20_000),
        ensures
            r == if whole_of(self@) > u64::MAX {
                u64::MAX as nat
            } else {
                whole_of(self@)
            },
    {
        if self.digits == 0 {
            proof {
                if self.exponent < 0 {
                    lemma_pow2_pos((-self.exponent) as nat);
                    assert(0int / (pow2((-self.exponent) as nat) as int) == 0)
                        by (nonlinear_arith)
                        requires
                            pow2((-self.exponent) as nat) > 0,
                    ;
                }
            }
            return 0;
        }
        if self.exponent >= 12 {
            proof {
                lemma2_to64();
                if self.exponent > 12 {
                    lemma_pow2_strictly_increases(12, self.exponent as nat);
                }
                let p = pow2(self.exponent as nat);
                assert(self.digits * p >= lowest() * 4096) by (nonlinear_arith)
                    requires
                        self.digits >= lowest(),
                        p >= 4096,
                ;
            }
            return u64::MAX;
        }
        let mut n: u64 = self.digits;
        let mut k: i32 = 0;
        proof {
            lemma2_to64();
            assert(self.digits * pow2(0) == self.digits);
            assert(self.digits as nat / pow2(0) == self.digits);
        }
        if self.exponent >= 0 {
            while k < self.exponent
                invariant
                    0 <= k <= self.exponent < 12,
                    self.digits < above(),
                    n == self.digits * pow2(k as nat),
                    pow2(11) == 2048,
                decreases self.exponent - k,
            {
                proof {
                    lemma_pow2_unfold((k + 1) as nat);
                    if k < 10 {
                        lemma_pow2_strictly_increases((k + 1) as nat, 11);
                    }
                    let p = pow2(k as nat);
                    assert(self.digits * (2 * p) == 2 * (self.digits * p)) by (nonlinear_arith);
                    assert(self.digits * (2 * p) < above() * 2048) by (nonlinear_arith)
                        requires
                            self.digits < above(),
                            0 <= 2 * p <= 2048,
                    ;
                }
                n = 2 * n;
                k = k + 1;
            }
        } else {
            let places: i32 = -self.exponent;
            while k < places && n > 0
                invariant
                    0 <= k <= places <= 20_000,
                    n == self.digits as nat / pow2(k as nat),
                decreases places - k,
            {
                proof {
                    lemma_pow2_unfold((k + 1) as nat);
                    lemma_pow2_pos(k as nat);
                    lemma_div_denominator(self.digits as int, pow2(k as nat) as int, 2);
                    assert(pow2(k as nat) * 2 == 2 * pow2(k as nat));
                }
                n = n / 2;
                k = k + 1;
            }
            proof {
                if k < places {
                    lemma_pow2_pos(k as nat);
                    lemma_pow2_strictly_increases(k as nat, places as nat);
                    let p = pow2(k as nat);
                    let q = pow2(places as nat);
                    let a = self.digits as nat;
                    assert(a / q == 0) by (nonlinear_arith)
                        requires
                            a / p == 0,
                            0 < p < q,
                    ;
                }
            }
        }
        n
    }
}

} // verus!
