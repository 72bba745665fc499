//! Double-precision arithmetic on integers.
//!
//! Every finite non-negative double is a whole number of steps of two to the power of minus
//! 1074, so a double is modelled by that number of steps. An arithmetic operation gives the
//! double nearest to the exact result, ties going to the even neighbour.
use vstd::arithmetic::div_mod::*;
use vstd::arithmetic::mul::*;
use vstd::arithmetic::power2::*;
use vstd::prelude::*;

verus! {

/// Two to the power of 52: the smallest significand of a normal double.
pub const MIN_SIGNIFICAND: u128 = 0x10_0000_0000_0000;

/// Two to the power of 53: one more than the largest significand.
pub const SIGNIFICAND_LIMIT: u128 = 0x20_0000_0000_0000;

/// The quotient `n / d` rounded to the nearest integer, ties to even.
pub open spec fn nearest_even(n: nat, d: nat) -> nat {
    let q = n / d;
    let r = n % d;
    if 2 * r < d || (2 * r == d && q % 2 == 0) {
        q
    } else {
        q + 1
    }
}

/// The distance between neighbouring doubles around a value of `q` steps.
pub open spec fn spacing(q: nat) -> nat
    decreases q,
{
    if q < SIGNIFICAND_LIMIT {
        1
    } else {
        2 * spacing(q / 2)
    }
}

/// The double nearest to `n / d` steps.
pub open spec fn rounded(n: nat, d: nat) -> nat {
    let u = spacing(n / d);
    u * nearest_even(n, d * u)
}

/// The number of steps in one.
pub open spec fn one() -> nat {
    pow2(1074)
}

/// The double nearest to the integer `x`.
pub open spec fn from_integer(x: nat) -> nat {
    rounded(x * one(), 1)
}

/// The product of two doubles.
pub open spec fn product(a: nat, b: nat) -> nat {
    rounded(a * b, one())
}

/// The quotient of two doubles.
pub open spec fn quotient(a: nat, b: nat) -> nat {
    rounded(a * one(), b)
}

/// The integer nearest to a double, halves away from zero.
pub open spec fn to_integer(a: nat) -> nat {
    (2 * a + one()) / (2 * one())
}

/// Common factors do not change a rounded quotient.
pub proof fn lemma_nearest_even_scales(n: nat, d: nat, c: nat)
    requires
        d > 0,
        c > 0,
    ensures
        nearest_even(c * n, c * d) == nearest_even(n, d),
{
    lemma_truncate_middle(n as int, c as int, d as int);
    lemma_div_denominator((c * n) as int, c as int, d as int);
    lemma_div_multiples_vanish(n as int, c as int);
    assert((c * n) / (c * d) == n / d);
    assert((c * n) % (c * d) == c * (n % d));
    let r = n % d;
    assert(2 * (c * r) == c * (2 * r)) by (nonlinear_arith);
    assert((c * (2 * r) < c * d) == (2 * r < d)) by (nonlinear_arith)
        requires
            c > 0,
    ;
    assert((c * (2 * r) == c * d) == (2 * r == d)) by (nonlinear_arith)
        requires
            c > 0,
    ;
}

/// Common factors do not change the nearest double.
pub proof fn lemma_rounded_cancels(n: nat, d: nat, c: nat)
    requires
        d > 0,
        c > 0,
    ensures
        rounded(c * n, c * d) == rounded(n, d),
{
    lemma_div_denominator((c * n) as int, c as int, d as int);
    lemma_div_multiples_vanish(n as int, c as int);
    let u = spacing(n / d);
    lemma_spacing_positive(n / d);
    assert(d * u > 0) by (nonlinear_arith)
        requires
            d > 0,
            u > 0,
    ;
    lemma_nearest_even_scales(n, d * u, c);
    assert(c * (d * u) == c * d * u) by (nonlinear_arith);
}

proof fn lemma_spacing_positive(q: nat)
    ensures
        spacing(q) >= 1,
    decreases q,
{
    if q >= SIGNIFICAND_LIMIT {
        lemma_spacing_positive(q / 2);
    }
}

/// Within the significand, rounding is to a whole number of steps.
pub proof fn lemma_rounded_within_significand(n: nat, d: nat)
    requires
        d > 0,
        n / d < SIGNIFICAND_LIMIT,
    ensures
        rounded(n, d) == nearest_even(n, d),
{
    assert(spacing(n / d) == 1);
    assert(d * 1 == d);
}

/// Above the significand limit, rounding on doubled steps is the same.
pub proof fn lemma_rounded_halves(n: nat, d: nat)
    requires
        d > 0,
        n / d >= SIGNIFICAND_LIMIT,
    ensures
        rounded(n, d) == 2 * rounded(n, 2 * d),
{
    lemma_div_denominator(n as int, d as int, 2);
    let u = spacing(n / (2 * d));
    assert(spacing(n / d) == 2 * u);
    assert(d * (2 * u) == (2 * d) * u) by (nonlinear_arith);
    let m = nearest_even(n, (2 * d) * u);
    assert((2 * u) * m == 2 * (u * m)) by (nonlinear_arith);
}

/// Scaling by a power of two commutes with rounding where no precision is lost to the step size.
pub proof fn lemma_rounded_scales(n: nat, d: nat, k: nat)
    requires
        d > 0,
        n / d >= MIN_SIGNIFICAND,
    ensures
        rounded(n * pow2(k), d) == rounded(n, d) * pow2(k),
    decreases k,
{
    if k == 0 {
        lemma2_to64();
    } else {
        let j = (k - 1) as nat;
        lemma_rounded_scales(n, d, j);
        lemma_pow2_unfold(k);
        lemma_pow2_pos(j);
        let h = n * pow2(j);
        assert(n * pow2(k) == 2 * h) by (nonlinear_arith)
            requires
                pow2(k) == 2 * pow2(j),
                h == n * pow2(j),
        ;
        assert(h >= n) by (nonlinear_arith)
            requires
                h == n * pow2(j),
                pow2(j) >= 1,
        ;
        lemma_div_is_ordered(n as int, h as int, d as int);
        lemma_doubled_quotient(h, d);
        lemma_rounded_halves(2 * h, d);
        lemma_rounded_cancels(h, d, 2);
        assert(rounded(n, d) * pow2(k) == 2 * (rounded(n, d) * pow2(j))) by (nonlinear_arith)
            requires
                pow2(k) == 2 * pow2(j),
        ;
    }
}

proof fn lemma_doubled_quotient(n: nat, d: nat)
    requires
        d > 0,
    ensures
        (2 * n) / d >= 2 * (n / d),
{
    let q = n / d;
    lemma_fundamental_div_mod(n as int, d as int);
    assert(2 * n >= (2 * q) * d) by (nonlinear_arith)
        requires
            n == d * q + n % d,
            n % d >= 0,
    ;
    lemma_div_is_ordered(((2 * q) * d) as int, (2 * n) as int, d as int);
    lemma_div_by_multiple((2 * q) as int, d as int);
}

/// An integer within the significand is a double itself.
pub proof fn lemma_small_integer_exact(x: nat)
    requires
        x < SIGNIFICAND_LIMIT,
    ensures
        rounded(x, 1) == x,
{
    lemma_rounded_within_significand(x, 1);
}

/// Scaling an integer by a power of two commutes with rounding.
pub proof fn lemma_rounded_integer_scales(x: nat, k: nat)
    ensures
        rounded(x * pow2(k), 1) == rounded(x, 1) * pow2(k),
    decreases k,
{
    if x >= MIN_SIGNIFICAND {
        lemma_rounded_scales(x, 1, k);
    } else if x * pow2(k) < SIGNIFICAND_LIMIT {
        lemma_small_integer_exact(x * pow2(k));
        lemma_small_integer_exact(x);
    } else if k == 0 {
        lemma2_to64();
    } else {
        let j = (k - 1) as nat;
        lemma_rounded_integer_scales(x, j);
        lemma_pow2_unfold(k);
        let h = x * pow2(j);
        assert(x * pow2(k) == 2 * h) by (nonlinear_arith)
            requires
                pow2(k) == 2 * pow2(j),
                h == x * pow2(j),
        ;
        lemma_rounded_scales(h, 1, 1);
        lemma2_to64();
        assert(rounded(x, 1) * pow2(k) == 2 * (rounded(x, 1) * pow2(j))) by (nonlinear_arith)
            requires
                pow2(k) == 2 * pow2(j),
        ;
    }
}

/// A value below a power of two is rounded to at most that power.
pub proof fn lemma_rounded_below_power(n: nat, d: nat, b: nat)
    requires
        d > 0,
        b >= 53,
        n / d < pow2(b),
    ensures
        rounded(n, d) <= pow2(b),
    decreases b,
{
    if n / d >= SIGNIFICAND_LIMIT {
        if b == 53 {
            lemma2_to64_rest();
        } else {
            let c = (b - 1) as nat;
            lemma_pow2_unfold(b);
            lemma_div_denominator(n as int, d as int, 2);
            lemma_rounded_below_power(n, 2 * d, c);
            lemma_rounded_halves(n, d);
        }
    } else {
        lemma_rounded_within_significand(n, d);
    }
}

/// A value of at least one step is not rounded to zero.
pub proof fn lemma_rounded_positive(n: nat, d: nat)
    requires
        d > 0,
        n / d >= 1,
    ensures
        rounded(n, d) >= 1,
    decreases n / d,
{
    if n / d >= SIGNIFICAND_LIMIT {
        lemma_div_denominator(n as int, d as int, 2);
        lemma_rounded_positive(n, 2 * d);
        lemma_rounded_halves(n, d);
    } else {
        lemma_rounded_within_significand(n, d);
    }
}

/// A value from the smallest significand on is not rounded below it.
pub proof fn lemma_rounded_keeps_significand(n: nat, d: nat)
    requires
        d > 0,
        n / d >= MIN_SIGNIFICAND,
    ensures
        rounded(n, d) >= MIN_SIGNIFICAND,
    decreases n / d,
{
    if n / d >= SIGNIFICAND_LIMIT {
        lemma_div_denominator(n as int, d as int, 2);
        lemma_rounded_keeps_significand(n, 2 * d);
        lemma_rounded_halves(n, d);
    } else {
        lemma_rounded_within_significand(n, d);
    }
}

/// Of two values, the smaller is not rounded to more than the larger.
pub proof fn lemma_rounded_monotone(n: nat, m: nat, d: nat)
    requires
        d > 0,
        n <= m,
    ensures
        rounded(n, d) <= rounded(m, d),
    decreases n / d,
{
    lemma_div_is_ordered(n as int, m as int, d as int);
    if n / d >= SIGNIFICAND_LIMIT {
        lemma_div_denominator(n as int, d as int, 2);
        lemma_rounded_monotone(n, m, 2 * d);
        lemma_rounded_halves(n, d);
        lemma_rounded_halves(m, d);
    } else if m / d >= SIGNIFICAND_LIMIT {
        lemma2_to64_rest();
        lemma_rounded_below_power(n, d, 53);
        lemma_div_denominator(m as int, d as int, 2);
        lemma_rounded_keeps_significand(m, 2 * d);
        lemma_rounded_halves(m, d);
    } else {
        lemma_rounded_within_significand(n, d);
        lemma_rounded_within_significand(m, d);
        lemma_fundamental_div_mod(n as int, d as int);
        lemma_fundamental_div_mod(m as int, d as int);
    }
}

/// The quotient of two integers in double precision, over the doubles nearest to them.
pub proof fn lemma_quotient_of_integers(x: nat, y: nat)
    requires
        y > 0,
        rounded(y, 1) > 0,
    ensures
        quotient(from_integer(x), from_integer(y)) == rounded(
            rounded(x, 1) * one(),
            rounded(y, 1),
        ),
{
    let a = rounded(x, 1);
    let b = rounded(y, 1);
    lemma_rounded_integer_scales(x, 1074);
    lemma_rounded_integer_scales(y, 1074);
    lemma_pow2_pos(1074);
    lemma_rounded_cancels(a * one(), b, one());
    assert((a * one()) * one() == one() * (a * one())) by (nonlinear_arith);
    assert(b * one() == one() * b) by (nonlinear_arith);
}

/// The nearest double to `n / d`, computed on integers.
pub fn round_quotient(n: u128, d: u128) -> (r: u128)
    requires
        d > 0,
        n < 0x1000_0000_0000_0000_0000_0000_0000_0000,
    ensures
        r == rounded(n as nat, d as nat),
{
    let whole: u128 = n / d;
    let mut q: u128 = whole;
    let mut u: u128 = 1;
    while q >= SIGNIFICAND_LIMIT
        invariant
            u == 1 || 1 <= u <= whole,
            d > 0,
            whole == n / d,
            u * q <= whole,
            spacing(whole as nat) == u * spacing(q as nat),
            n < 0x1000_0000_0000_0000_0000_0000_0000_0000,
        decreases q,
    {
        let half: u128 = q / 2;
        assert(u * 2 <= whole && (u * 2) * half <= whole) by (nonlinear_arith)
            requires
                u * q <= whole,
                q >= 2,
                u >= 1,
                2 * half <= q,
                half >= 0,
        ;
        assert(u * (2 * spacing(half as nat)) == (u * 2) * spacing(half as nat))
            by (nonlinear_arith);
        assert(whole <= n) by {
            lemma_div_is_ordered_by_denominator(n as int, 1, d as int);
        }
        u = u * 2;
        q = half;
    }
    assert(spacing(q as nat) == 1);
    assert(u == spacing(whole as nat));
    assert(d * u <= n || u == 1) by {
        lemma_fundamental_div_mod(n as int, d as int);
        assert(d * whole <= n);
        if u <= whole {
            lemma_mul_inequality(u as int, whole as int, d as int);
            lemma_mul_is_commutative(u as int, d as int);
            lemma_mul_is_commutative(whole as int, d as int);
        }
    }
    assert(d * u > 0) by (nonlinear_arith)
        requires
            d > 0,
            u >= 1,
    ;
    let step: u128 = d * u;
    let m: u128 = n / step;
    let r: u128 = n % step;
    let up: bool = if r < step - r {
        false
    } else if r > step - r {
        true
    } else {
        m % 2 == 1
    };
    assert(u * m <= n) by {
        lemma_fundamental_div_mod(n as int, step as int);
        assert(u * m <= step * m) by (nonlinear_arith)
            requires
                step == d * u,
                d >= 1,
                u >= 0,
                m >= 0,
        ;
    }
    assert(u <= n || u == 1) by {
        lemma_div_is_ordered_by_denominator(n as int, 1, d as int);
    }
    assert(u * (m + 1) == u * m + u) by (nonlinear_arith);
    assert((m + if up { 1int } else { 0 }) == nearest_even(n as nat, step as nat));
    if up {
        u * (m + 1)
    } else {
        u * m
    }
}

/// The double nearest to a quotient lies within half a step of it, or within one part in two to
/// the power of 53.
pub proof fn law_rounded_near(n: nat, d: nat)
    requires
        d > 0,
    ensures
        n / d >= 0x10_0000_0000_0000 ==> 0x20_0000_0000_0000 * (rounded(n, d) * d - n) <= n,
        n / d >= 0x10_0000_0000_0000 ==> 0x20_0000_0000_0000 * (n - rounded(n, d) * d) <= n,
        n / d < 0x10_0000_0000_0000 ==> 2 * (rounded(n, d) * d - n) <= d,
        n / d < 0x10_0000_0000_0000 ==> 2 * (n - rounded(n, d) * d) <= d,
    decreases n / d,
{
    let q = n / d;
    lemma_fundamental_div_mod(n as int, d as int);
    if q >= SIGNIFICAND_LIMIT {
        lemma_div_denominator(n as int, d as int, 2);
        law_rounded_near(n, 2 * d);
        lemma_rounded_halves(n, d);
        let r = rounded(n, 2 * d);
        assert((2 * r) * d == r * (2 * d)) by (nonlinear_arith);
    } else {
        lemma_rounded_within_significand(n, d);
        let m = n % d;
        assert(n == q * d + m) by (nonlinear_arith)
            requires
                n == d * q + m,
        ;
        assert((q + 1) * d == q * d + d) by (nonlinear_arith);
        if q >= MIN_SIGNIFICAND {
            assert(n >= 0x10_0000_0000_0000 * d) by (nonlinear_arith)
                requires
                    n == q * d + m,
                    m >= 0,
                    q >= 0x10_0000_0000_0000,
            ;
        }
    }
}

/// The computed double is one that lies near the quotient.
pub proof fn law_round_quotient(n: u128, d: u128, r: u128)
    requires
        0 < d,
        call_ensures(round_quotient, (n, d), r),
    ensures
        0x20_0000_0000_0000 * (r * d - n) <= n + 0x10_0000_0000_0000 * d,
        0x20_0000_0000_0000 * (n - r * d) <= n + 0x10_0000_0000_0000 * d,
        n % d == 0 && n / d < 0x20_0000_0000_0000 ==> r == n / d,
{
    law_rounded_near(n as nat, d as nat);
    if n / d < 0x20_0000_0000_0000 {
        lemma_rounded_within_significand(n as nat, d as nat);
    }
}

} // verus!
