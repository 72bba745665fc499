//! The relative error at which a search for a gas limit stops.
use vstd::arithmetic::div_mod::*;
use vstd::arithmetic::power2::*;
use vstd::prelude::*;

use crate::binary64::{
    from_integer, law_rounded_near, lemma_quotient_of_integers, lemma_rounded_below_power,
    lemma_rounded_cancels, lemma_rounded_integer_scales, lemma_rounded_monotone,
    lemma_rounded_positive, lemma_rounded_scales, lemma_rounded_within_significand,
    lemma_small_integer_exact, nearest_even, one, quotient, round_quotient, rounded,
    MIN_SIGNIFICAND, SIGNIFICAND_LIMIT,
};

verus! {

/// The significand of the double nearest to 0.015, whose steps are two to the power of minus 59.
const RATIO_SIGNIFICAND: u128 = 8_646_911_284_551_352;

/// The double nearest to 0.015.
pub open spec fn error_ratio() -> nat {
    rounded(15 * one(), 1000)
}

/// Whether the gap between the bounds, divided by the upper one in double precision, is below
/// 0.015.
pub open spec fn gap_below_ratio(lower: u64, upper: u64) -> bool {
    quotient(from_integer((upper - lower) as nat), from_integer(upper as nat)) < error_ratio()
}

proof fn lemma_error_ratio()
    ensures
        error_ratio() == RATIO_SIGNIFICAND * pow2(1015),
{
    lemma_pow2_adds(59, 1015);
    lemma2_to64_rest();
    let n: nat = 15 * 0x800_0000_0000_0000;
    assert(15 * one() == n * pow2(1015)) by (nonlinear_arith)
        requires
            one() == 0x800_0000_0000_0000 * pow2(1015),
            n == 15 * 0x800_0000_0000_0000,
    ;
    lemma_rounded_scales(n, 1000, 1015);
    lemma_rounded_within_significand(n, 1000);
    assert(nearest_even(n, 1000) == RATIO_SIGNIFICAND);
}

/// Whether the gap between the bounds is a smaller part of the upper one than the error ratio.
pub fn within_error_ratio(lower: u64, upper: u64) -> (close: bool)
    requires
        lower <= upper,
        0 < upper,
    ensures
        close == gap_below_ratio(lower, upper),
{
    let gap: u128 = (upper - lower) as u128;
    let a: u128 = round_quotient(gap, 1);
    let b: u128 = round_quotient(upper as u128, 1);
    proof {
        lemma2_to64();
        lemma2_to64_rest();
        lemma_rounded_below_power(gap as nat, 1, 64);
        lemma_rounded_below_power(upper as nat, 1, 64);
        lemma_rounded_positive(upper as nat, 1);
        lemma_quotient_of_integers(gap as nat, upper as nat);
        lemma_error_ratio();
        lemma_pow2_adds(59, 1015);
        lemma_pow2_pos(1015);
    }
    let n: u128 = a * 0x800_0000_0000_0000;
    assert(a * one() == n * pow2(1015)) by (nonlinear_arith)
        requires
            one() == 0x800_0000_0000_0000 * pow2(1015),
            n == a * 0x800_0000_0000_0000,
    ;
    if n / b < MIN_SIGNIFICAND {
        proof {
            lemma_small_ratio(n as nat, b as nat);
        }
        true
    } else {
        proof {
            lemma_rounded_scales(n as nat, b as nat, 1015);
            let r = rounded(n as nat, b as nat);
            assert((r * pow2(1015) < RATIO_SIGNIFICAND * pow2(1015)) == (r < RATIO_SIGNIFICAND))
                by (nonlinear_arith)
                requires
                    pow2(1015) > 0,
            ;
        }
        round_quotient(n, b) < RATIO_SIGNIFICAND
    }
}

/// Raising the lower bound keeps the gap below the error ratio.
pub proof fn lemma_gap_monotone(lower: u64, higher: u64, upper: u64)
    requires
        lower <= higher <= upper,
        0 < upper,
        gap_below_ratio(lower, upper),
    ensures
        gap_below_ratio(higher, upper),
{
    let x = (upper - higher) as nat;
    let y = (upper - lower) as nat;
    lemma_rounded_positive(upper as nat, 1);
    lemma_quotient_of_integers(x, upper as nat);
    lemma_quotient_of_integers(y, upper as nat);
    lemma_rounded_monotone(x, y, 1);
    let (a, b) = (rounded(x, 1), rounded(y, 1));
    assert(a * one() <= b * one()) by (nonlinear_arith)
        requires
            a <= b,
    ;
    lemma_rounded_monotone(a * one(), b * one(), rounded(upper as nat, 1));
}

/// Up to two to the power of 53, a gap below the error ratio is less than fifteen parts in a
/// thousand of the upper bound.
pub proof fn lemma_gap_in_integers(lower: u64, upper: u64)
    requires
        lower <= upper < SIGNIFICAND_LIMIT,
        0 < upper,
        gap_below_ratio(lower, upper),
    ensures
        (upper - lower) * 1000 < upper * 15,
{
    let a = (upper - lower) as nat;
    let b = upper as nat;
    lemma_small_integer_exact(a);
    lemma_small_integer_exact(b);
    lemma_quotient_of_integers(a, b);
    if a * 1000 >= b * 15 {
        lemma_rounded_cancels(a * one(), b, 1000);
        lemma_rounded_cancels(15 * one(), 1000, b);
        assert(b * (15 * one()) <= 1000 * (a * one())) by (nonlinear_arith)
            requires
                a * 1000 >= b * 15,
        ;
        lemma_rounded_monotone(b * (15 * one()), 1000 * (a * one()), 1000 * b);
        assert(b * 1000 == 1000 * b);
    }
}

proof fn lemma_small_ratio(n: nat, d: nat)
    requires
        d > 0,
        n / d < MIN_SIGNIFICAND,
    ensures
        rounded(n * pow2(1015), d) < RATIO_SIGNIFICAND * pow2(1015),
{
    lemma2_to64_rest();
    lemma_pow2_pos(1015);
    lemma_pow2_adds(52, 1015);
    lemma_fundamental_div_mod(n as int, d as int);
    let p = pow2(1015);
    let q = n / d;
    assert(d * (q + 1) == d * q + d) by (nonlinear_arith);
    assert(n * p < (MIN_SIGNIFICAND * p) * d) by (nonlinear_arith)
        requires
            n < d * (q + 1),
            q + 1 <= MIN_SIGNIFICAND,
            p > 0,
            d > 0,
    ;
    lemma_multiply_divide_lt((n * p) as int, d as int, (MIN_SIGNIFICAND * p) as int);
    lemma_rounded_below_power(n * p, d, 1067);
    assert(MIN_SIGNIFICAND * p < RATIO_SIGNIFICAND * p) by (nonlinear_arith)
        requires
            p > 0,
    ;
}

proof fn lemma_ratio_below(a: nat, b: nat)
    requires
        0 < b < 0x4_0000_0000_0000,
        a * 1000 < b * 15,
    ensures
        rounded(a * one(), b) < error_ratio(),
{
    let p = pow2(1015);
    let w = (RATIO_SIGNIFICAND - 1) as nat;
    lemma_error_ratio();
    lemma_pow2_adds(59, 1015);
    lemma2_to64_rest();
    lemma_pow2_pos(1015);
    // Both sides are multiples of five, so the gap is a two hundredth of the bound or more.
    assert(a * 1000 + 5 <= b * 15);
    assert(a * 0x800_0000_0000_0000 <= 8_646_911_284_551_351 * b);
    assert(a * one() <= b * (w * p)) by (nonlinear_arith)
        requires
            one() == 0x800_0000_0000_0000 * p,
            a * 0x800_0000_0000_0000 <= w * b,
            p > 0,
    ;
    lemma_rounded_monotone(a * one(), b * (w * p), b);
    assert(b * 1 == b);
    lemma_rounded_cancels(w * p, 1, b);
    lemma_rounded_integer_scales(w, 1015);
    lemma_small_integer_exact(w);
    assert(w * p < RATIO_SIGNIFICAND * p) by (nonlinear_arith)
        requires
            w < RATIO_SIGNIFICAND,
            p > 0,
    ;
}

/// Bounds up to two to the power of 50 are close exactly where the gap between them is less than
/// fifteen parts in a thousand of the upper one.
pub proof fn law_error_ratio(lower: u64, upper: u64, close: bool)
    requires
        lower <= upper,
        0 < upper < 0x4_0000_0000_0000,
        call_ensures(within_error_ratio, (lower, upper), close) || close == gap_below_ratio(
            lower,
            upper,
        ),
    ensures
        close <==> (upper - lower) * 1000 < upper * 15,
{
    let (a, b) = ((upper - lower) as nat, upper as nat);
    if gap_below_ratio(lower, upper) {
        lemma_gap_in_integers(lower, upper);
    }
    if a * 1000 < b * 15 {
        lemma_small_integer_exact(a);
        lemma_small_integer_exact(b);
        lemma_quotient_of_integers(a, b);
        lemma_ratio_below(a, b);
    }
}

proof fn lemma_integer_near(x: nat)
    ensures
        0x20_0000_0000_0000 * (rounded(x, 1) - x) <= x,
        0x20_0000_0000_0000 * (x - rounded(x, 1)) <= x,
{
    law_rounded_near(x, 1);
    assert(rounded(x, 1) * 1 == rounded(x, 1));
    if x < SIGNIFICAND_LIMIT {
        lemma_small_integer_exact(x);
    }
}

proof fn lemma_close_in_integers(x: nat, a: nat, b: nat, y: nat)
    requires
        0x1f_ffff_ffff_ffff * x <= 0x20_0000_0000_0000 * a,
        0x1f_ffff_ffff_ffff * a * 0x800_0000_0000_0000 <= 0x20_0000_0000_0000 * (
        8_646_911_284_551_352 * b),
        0x20_0000_0000_0000 * b <= 0x20_0000_0000_0001 * y,
    ensures
        x * 1000 * 0x4_0000_0000_0000 <= y * 15 * 0x4_0000_0000_0001,
{
}

/// Whatever the bounds, they are close only where the gap between them is less than fifteen
/// parts in a thousand of the upper one, and apart only where it is no less, up to one part in two
/// to the power of 50.
pub proof fn law_error_ratio_of_all(lower: u64, upper: u64, close: bool)
    requires
        lower <= upper,
        0 < upper,
        call_ensures(within_error_ratio, (lower, upper), close) || close == gap_below_ratio(
            lower,
            upper,
        ),
    ensures
        close ==> (upper - lower) * 1000 * 0x4_0000_0000_0000 <= upper * 15 * 0x4_0000_0000_0001,
        !close ==> (upper - lower) * 1000 * 0x4_0000_0000_0001 >= upper * 15 * 0x4_0000_0000_0000,
{
    let (x, y) = ((upper - lower) as nat, upper as nat);
    let (a, b) = (rounded(x, 1), rounded(y, 1));
    let p = pow2(1015);
    lemma_integer_near(x);
    lemma_integer_near(y);
    lemma_rounded_positive(y, 1);
    lemma_quotient_of_integers(x, y);
    lemma_error_ratio();
    lemma_pow2_adds(59, 1015);
    lemma2_to64_rest();
    lemma_pow2_pos(1015);
    lemma_pow2_adds(900, 115);
    lemma_pow2_adds(64, 51);
    lemma_pow2_pos(900);
    lemma_pow2_pos(51);
    let n = a * one();
    let q = rounded(n, b);
    assert(0x20_0000_0000_0000 * (q * b - n) <= n && 0x20_0000_0000_0000 * (n - q * b) <= n) by {
        if a == 0 {
            assert(n == 0) by (nonlinear_arith)
                requires
                    n == a * one(),
                    a == 0,
            ;
            lemma_rounded_within_significand(0, b);
            assert(q * b == 0) by (nonlinear_arith)
                requires
                    q == 0,
            ;
        } else {
            law_rounded_near(n, b);
            assert(p >= 0x1_0000_0000_0000_0000) by (nonlinear_arith)
                requires
                    p == pow2(900) * pow2(115),
                    pow2(115) == 0x1_0000_0000_0000_0000 * pow2(51),
                    pow2(900) > 0,
                    pow2(51) > 0,
            ;
            assert(n >= 0x10_0000_0000_0000 * b) by (nonlinear_arith)
                requires
                    n == a * one(),
                    a >= 1,
                    one() == 0x800_0000_0000_0000 * p,
                    p >= 0x1_0000_0000_0000_0000,
                    b <= 0x1_0000_0000_0000_0000 * 2,
            ;
            lemma_div_is_ordered((0x10_0000_0000_0000 * b) as int, n as int, b as int);
            lemma_div_by_multiple(0x10_0000_0000_0000, b as int);
        }
    }
    let c: int = 0x20_0000_0000_0000;
    let w = RATIO_SIGNIFICAND;
    if close {
        assert(q * b <= (w * p) * b) by (nonlinear_arith)
            requires
                q < w * p,
                b > 0,
        ;
        assert((c - 1) * a * 0x800_0000_0000_0000 <= c * (w * b)) by (nonlinear_arith)
            requires
                c * (n - q * b) <= n,
                n == a * (0x800_0000_0000_0000 * p),
                q * b <= (w * p) * b,
                p > 0,
                c == 0x20_0000_0000_0000,
        ;
        lemma_close_in_integers(x, a, b, y);
    } else {
        assert(q * b >= (w * p) * b) by (nonlinear_arith)
            requires
                q >= w * p,
                b > 0,
        ;
        assert((c + 1) * a * 0x800_0000_0000_0000 >= c * (w * b)) by (nonlinear_arith)
            requires
                c * (q * b - n) <= n,
                n == a * (0x800_0000_0000_0000 * p),
                q * b >= (w * p) * b,
                p > 0,
                c == 0x20_0000_0000_0000,
        ;
    }
}

} // verus!
