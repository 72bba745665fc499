//! Percentiles of a block's gas.
use vstd::arithmetic::div_mod::*;
use vstd::arithmetic::power2::*;
use vstd::prelude::*;

use crate::binary64::{
    from_integer, law_rounded_near, lemma_rounded_below_power, lemma_rounded_cancels,
    lemma_rounded_integer_scales, lemma_rounded_positive, lemma_rounded_scales,
    lemma_rounded_within_significand, lemma_small_integer_exact, one, product, quotient,
    round_quotient, rounded, to_integer, MIN_SIGNIFICAND,
};
use crate::double::{Double, FRACTION_LIMIT, SIGN_BIT};

verus! {

/// The gas below which the given percentile of a block's gas lies: the block's gas times the
/// percentile over one hundred, worked out in double precision and rounded to an integer that
/// fits 128 bits. Negative percentiles and those that are no number give zero.
pub open spec fn gas_threshold_spec(block_gas_used: u64, percentile: Double) -> nat {
    if percentile.is_nan_spec() || percentile.negative() {
        0
    } else {
        let part = quotient(
            product(from_integer(block_gas_used as nat), percentile.magnitude()),
            from_integer(100),
        );
        if to_integer(part) <= u128::MAX {
            to_integer(part)
        } else {
            u128::MAX as nat
        }
    }
}

/// The steps of the double whose integer part is the threshold, with the block's gas rounded to
/// `gas` and the percentile split into `significand` and a power of two.
proof fn lemma_part(block_gas_used: nat, percentile: Double, significand: nat, shift: nat)
    requires
        percentile.magnitude() == significand * pow2(shift),
    ensures
        quotient(
            product(from_integer(block_gas_used), percentile.magnitude()),
            from_integer(100),
        ) == rounded(
            rounded(rounded(block_gas_used, 1) * significand, 1) * pow2(shift),
            100,
        ),
{
    let gas = rounded(block_gas_used, 1);
    let exact = gas * significand;
    let prod = rounded(exact, 1) * pow2(shift);
    lemma_pow2_pos(1074);
    lemma_rounded_integer_scales(block_gas_used, 1074);
    assert(product(gas * one(), percentile.magnitude()) == prod) by {
        assert((gas * one()) * (significand * pow2(shift)) == one() * (exact * pow2(shift)))
            by (nonlinear_arith)
            requires
                exact == gas * significand,
        ;
        assert(one() * 1 == one());
        lemma_rounded_cancels(exact * pow2(shift), 1, one());
        lemma_rounded_integer_scales(exact, shift);
    }
    assert(from_integer(100) == one() * 100) by {
        lemma_rounded_integer_scales(100, 1074);
        lemma_small_integer_exact(100);
    }
    assert(prod * one() == one() * prod) by (nonlinear_arith);
    lemma_rounded_cancels(prod, 100, one());
}

/// A quotient of few steps is less than one half.
proof fn lemma_part_small(n: nat, shift: nat)
    requires
        n <= pow2(117),
        shift < 900,
    ensures
        to_integer(rounded(n * pow2(shift), 100)) == 0,
{
    lemma_pow2_adds(117, shift);
    lemma_pow2_strictly_increases(117 + shift, 1020);
    assert(n * pow2(shift) <= pow2(117) * pow2(shift)) by (nonlinear_arith)
        requires
            n <= pow2(117),
    ;
    lemma_rounded_below_power(n * pow2(shift), 100, 1020);
    lemma_pow2_strictly_increases(1020, 1073);
    lemma_pow2_unfold(1074);
    lemma_basic_div(
        (2 * rounded(n * pow2(shift), 100) + one()) as int,
        (2 * one()) as int,
    );
}

/// Dividing out the steps that a double is a multiple of.
proof fn lemma_to_integer_low(w: nat, e: nat, t: nat)
    requires
        t >= 1,
        e + t == 1074,
    ensures
        to_integer(w * pow2(e)) == (w + pow2((t - 1) as nat)) / (2 * pow2((t - 1) as nat)),
{
    let h = pow2((t - 1) as nat);
    let p = pow2(e);
    lemma_pow2_unfold(t);
    lemma_pow2_adds(e, t);
    lemma_pow2_pos(e);
    lemma_pow2_pos((t - 1) as nat);
    assert(2 * (w * p) + p * (2 * h) == (2 * p) * (w + h)) by (nonlinear_arith);
    assert(2 * (p * (2 * h)) == (2 * p) * (2 * h)) by (nonlinear_arith);
    lemma_div_denominator(((2 * p) * (w + h)) as int, (2 * p) as int, (2 * h) as int);
    lemma_div_multiples_vanish((w + h) as int, (2 * p) as int);
}

/// A double that is a multiple of one is its own integer.
proof fn lemma_to_integer_high(w: nat, e: nat)
    ensures
        to_integer(w * pow2(1074 + e)) == w * pow2(e),
{
    let v = w * pow2(e);
    lemma_pow2_adds(1074, e);
    lemma_pow2_pos(1074);
    assert(w * (one() * pow2(e)) == v * one()) by (nonlinear_arith)
        requires
            v == w * pow2(e),
    ;
    assert(2 * (v * one()) + one() == v * (2 * one()) + one()) by (nonlinear_arith);
    lemma_fundamental_div_mod_converse(
        (2 * (v * one()) + one()) as int,
        (2 * one()) as int,
        v as int,
        one() as int,
    );
}

/// Two to the power of `e`.
fn power_of_two(e: u64) -> (r: u128)
    requires
        e < 128,
    ensures
        r == pow2(e as nat),
{
    let mut r: u128 = 1;
    let mut i: u64 = 0;
    proof {
        lemma2_to64();
    }
    while i < e
        invariant
            i <= e < 128,
            r == pow2(i as nat),
        decreases e - i,
    {
        proof {
            lemma_pow2_unfold((i + 1) as nat);
            lemma2_to64_rest();
            lemma_pow2_adds(64, 63);
            if i + 1 < 127 {
                lemma_pow2_strictly_increases((i + 1) as nat, 127);
            }
        }
        r = r * 2;
        i = i + 1;
    }
    r
}

/// `w` times two to the power of `e`, cut off at the largest 128-bit integer.
fn scale_saturating(w: u128, e: u64) -> (r: u128)
    requires
        w > 0,
    ensures
        r == if w * pow2(e as nat) <= u128::MAX {
            w * pow2(e as nat)
        } else {
            u128::MAX as int
        },
{
    let mut r: u128 = w;
    let mut i: u64 = 0;
    proof {
        lemma2_to64();
    }
    while i < e
        invariant
            i <= e,
            w > 0,
            r == w * pow2(i as nat),
        decreases e - i,
    {
        proof {
            lemma_pow2_unfold((i + 1) as nat);
            assert(w * (2 * pow2(i as nat)) == 2 * (w * pow2(i as nat))) by (nonlinear_arith);
        }
        if r > u128::MAX / 2 {
            proof {
                if i + 1 < e {
                    lemma_pow2_strictly_increases((i + 1) as nat, e as nat);
                }
                assert(w * pow2((i + 1) as nat) <= w * pow2(e as nat)) by (nonlinear_arith)
                    requires
                        pow2((i + 1) as nat) <= pow2(e as nat),
                        w > 0,
                ;
            }
            return u128::MAX;
        }
        r = r * 2;
        i = i + 1;
    }
    r
}

/// The integer nearest to `w` times two to the power of `e` steps.
fn steps_to_integer(w: u128, e: u64) -> (r: u128)
    requires
        0 < w <= pow2(124),
        e < 4096,
    ensures
        r == if to_integer(w as nat * pow2(e as nat)) <= u128::MAX {
            to_integer(w as nat * pow2(e as nat))
        } else {
            u128::MAX as nat
        },
{
    if e >= 1074 {
        let above: u64 = e - 1074;
        proof {
            lemma_to_integer_high(w as nat, above as nat);
        }
        return scale_saturating(w, above);
    }
    let t: u64 = 1074 - e;
    proof {
        lemma_to_integer_low(w as nat, e as nat, t as nat);
        lemma_pow2_adds(64, 60);
        lemma2_to64_rest();
    }
    if t > 125 {
        proof {
            lemma_pow2_strictly_increases(124, (t - 1) as nat);
            let h = pow2((t - 1) as nat);
            lemma_basic_div((w + h) as int, (2 * h) as int);
        }
        return 0;
    }
    let h: u128 = power_of_two(t - 1);
    proof {
        lemma_pow2_pos((t - 1) as nat);
        if t - 1 < 124 {
            lemma_pow2_strictly_increases((t - 1) as nat, 124);
        }
    }
    (w + h) / (2 * h)
}

/// The gas below which the given percentile of a block's gas lies.
pub fn gas_threshold(block_gas_used: u64, percentile: Double) -> (threshold: u128)
    ensures
        threshold == gas_threshold_spec(block_gas_used, percentile),
{
    if percentile.is_nan() || percentile.bits >= SIGN_BIT {
        return 0;
    }
    let exponent: u64 = percentile.bits / FRACTION_LIMIT;
    let fraction: u64 = percentile.bits % FRACTION_LIMIT;
    let significand: u128 = if exponent == 0 {
        fraction as u128
    } else {
        fraction as u128 + MIN_SIGNIFICAND
    };
    let shift: u64 = if exponent == 0 {
        0
    } else {
        exponent - 1
    };
    let gas: u128 = round_quotient(block_gas_used as u128, 1);
    proof {
        lemma2_to64();
        lemma2_to64_rest();
        lemma_rounded_below_power(block_gas_used as nat, 1, 64);
        assert(gas * significand < 0x1_0000_0000_0000_0000 * 0x20_0000_0000_0000)
            by (nonlinear_arith)
            requires
                gas <= 0x1_0000_0000_0000_0000,
                significand < 0x20_0000_0000_0000,
        ;
        lemma_part(block_gas_used as nat, percentile, significand as nat, shift as nat);
        lemma_pow2_adds(64, 53);
        lemma_rounded_below_power((gas * significand) as nat, 1, 117);
    }
    let prod: u128 = round_quotient(gas * significand, 1);
    if prod == 0 {
        proof {
            assert(0 * pow2(shift as nat) == 0);
            lemma_rounded_within_significand(0, 100);
            lemma_pow2_pos(1074);
            lemma_basic_div(one() as int, (2 * one()) as int);
        }
        return 0;
    }
    if shift < 900 {
        proof {
            lemma_part_small(prod as nat, shift as nat);
        }
        return 0;
    }
    let up: u64 = if prod < 0x1_0000_0000_0000_0000 {
        60
    } else {
        0
    };
    let n: u128 = if prod < 0x1_0000_0000_0000_0000 {
        prod * 0x1000_0000_0000_0000
    } else {
        prod
    };
    let w: u128 = round_quotient(n, 100);
    proof {
        lemma_pow2_adds(up as nat, (shift - up) as nat);
        assert(prod * pow2(shift as nat) == n * pow2((shift - up) as nat)) by (nonlinear_arith)
            requires
                n == prod * pow2(up as nat),
                pow2(shift as nat) == pow2(up as nat) * pow2((shift - up) as nat),
        ;
        lemma_rounded_scales(n as nat, 100, (shift - up) as nat);
        lemma_pow2_adds(64, 60);
        lemma_rounded_below_power(n as nat, 100, 124);
        lemma_rounded_positive(n as nat, 100);
    }
    steps_to_integer(w, shift - up)
}

proof fn lemma_threshold_near(block_gas_used: u64, percentile: Double)
    requires
        block_gas_used < 0x2000_0000_0000,
        !percentile.is_nan_spec(),
        !percentile.negative(),
        percentile.magnitude() <= 100 * one(),
    ensures
        ({
            let exact = block_gas_used * percentile.magnitude();
            let over = gas_threshold_spec(block_gas_used, percentile) * (100 * one());
            over - exact <= 51 * one() && exact - over <= 51 * one()
        }),
{
    let g = block_gas_used as nat;
    let m = percentile.magnitude();
    let x = g * m;
    lemma_pow2_pos(1074);
    lemma_pow2_adds(64, 1010);
    lemma_pow2_pos(1010);
    lemma2_to64_rest();
    assert(one() >= 0x1_0000_0000_0000_0000);
    assert(x <= 0x2000_0000_0000 * (100 * one())) by (nonlinear_arith)
        requires
            x == g * m,
            g <= 0x2000_0000_0000,
            m <= 100 * one(),
    ;
    lemma_rounded_integer_scales(g, 1074);
    lemma_small_integer_exact(g);
    lemma_rounded_integer_scales(100, 1074);
    lemma_small_integer_exact(100);
    let p = product(g * one(), m);
    assert(p == rounded(x, 1)) by {
        assert((g * one()) * m == one() * x) by (nonlinear_arith)
            requires
                x == g * m,
        ;
        assert(one() * 1 == one());
        lemma_rounded_cancels(x, 1, one());
    }
    law_rounded_near(x, 1);
    assert(p * 1 == p);
    let q = quotient(p, 100 * one());
    assert(q == rounded(p, 100)) by {
        assert(p * one() == one() * p) by (nonlinear_arith);
        assert(one() * 100 == 100 * one());
        lemma_rounded_cancels(p, 100, one());
    }
    law_rounded_near(p, 100);
    let t = to_integer(q);
    lemma_fundamental_div_mod((2 * q + one()) as int, (2 * one()) as int);
    let r = (2 * q + one()) % (2 * one());
    assert(2 * q + one() == 2 * (t * one()) + r) by (nonlinear_arith)
        requires
            2 * q + one() == (2 * one()) * t + r,
    ;
    assert(t * (100 * one()) == 100 * (t * one())) by (nonlinear_arith);
    assert(t <= u128::MAX) by {
        assert(q * 100 <= 0x8000_0000_0000 * (100 * one()));
        assert(t * one() <= 0x8000_0000_0000 * one() + one());
        assert(t <= 0x8000_0000_0001) by (nonlinear_arith)
            requires
                t * one() <= 0x8000_0000_0000 * one() + one(),
                one() > 0,
        ;
    }
}

/// A threshold is zero for what is no number, for negative numbers and for zero. For percentiles
/// up to one hundred it is the percentage of the block's gas, rounded to the nearest integer, to
/// within a hundredth for amounts of gas up to two to the power of 45: a hundred times the
/// threshold differs from the gas times the percentile by 51 at most.
pub proof fn law_threshold_near(block_gas_used: u64, percentile: Double, threshold: u128)
    requires
        call_ensures(gas_threshold, (block_gas_used, percentile), threshold),
    ensures
        percentile.bits % 0x8000_0000_0000_0000 > 0x7ff0_0000_0000_0000 ==> threshold == 0,
        percentile.bits >= 0x8000_0000_0000_0000 ==> threshold == 0,
        threshold == gas_threshold_spec(block_gas_used, percentile),
        percentile.bits <= 0x4059_0000_0000_0000 && block_gas_used < 0x2000_0000_0000 ==> {
            let exact = block_gas_used * percentile.magnitude();
            let over = threshold * (100 * pow2(1074));
            over - exact <= 51 * pow2(1074) && exact - over <= 51 * pow2(1074)
        },
{
    if percentile.bits <= 0x4059_0000_0000_0000 && block_gas_used < 0x2000_0000_0000 {
        percentile.lemma_up_to_hundred();
        lemma_threshold_near(block_gas_used, percentile);
    }
}

} // verus!
