//! Doubles as their bits: their order, and ratios of integers.
use vstd::arithmetic::div_mod::*;
use vstd::arithmetic::power2::*;
use vstd::prelude::*;

use crate::binary64::{
    from_integer, law_rounded_near, lemma_quotient_of_integers, lemma_rounded_below_power,
    lemma_rounded_cancels, lemma_rounded_halves, lemma_rounded_integer_scales,
    lemma_rounded_keeps_significand, lemma_rounded_positive, lemma_rounded_scales,
    lemma_rounded_within_significand, lemma_small_integer_exact, one, quotient, round_quotient,
    rounded, MIN_SIGNIFICAND, SIGNIFICAND_LIMIT,
};

verus! {

/// A double as its bits: a sign bit, eleven bits of exponent and 52 bits of fraction.
#[derive(Clone, Copy, Debug, PartialEq, Eq, Structural)]
pub struct Double {
    pub bits: u64,
}

/// The sign bit; the bits below it are those of the absolute value.
pub const SIGN_BIT: u64 = 0x8000_0000_0000_0000;

/// One more than the largest fraction.
pub const FRACTION_LIMIT: u64 = 0x10_0000_0000_0000;

/// The bits of infinity.
pub const INFINITY_BITS: u64 = 0x7ff0_0000_0000_0000;

/// The bits of what is no number.
const NAN_BITS: u64 = 0x7ff8_0000_0000_0000;

/// The bits of one hundred.
const HUNDRED_BITS: u64 = 0x4059_0000_0000_0000;

impl Double {
    /// The sign bit.
    pub open spec fn negative(self) -> bool {
        self.bits >= 0x8000_0000_0000_0000
    }

    /// The exponent bits.
    pub open spec fn exponent(self) -> nat {
        (self.bits as nat / 0x10_0000_0000_0000) % 2048
    }

    /// The fraction bits.
    pub open spec fn fraction(self) -> nat {
        self.bits as nat % 0x10_0000_0000_0000
    }

    /// Whether the bits stand for no number.
    pub open spec fn is_nan_spec(self) -> bool {
        self.exponent() == 2047 && self.fraction() != 0
    }

    /// The absolute value, in steps of the smallest positive double. Infinity counts as two to
    /// the power of 1024.
    pub open spec fn magnitude(self) -> nat {
        if self.exponent() == 0 {
            self.fraction()
        } else {
            (0x10_0000_0000_0000 + self.fraction()) * pow2((self.exponent() - 1) as nat)
        }
    }

    /// The value, in steps of the smallest positive double.
    pub open spec fn value(self) -> int {
        if self.negative() {
            -self.magnitude()
        } else {
            self.magnitude() as int
        }
    }

    /// Below zero; what is no number is not.
    pub open spec fn below_zero_spec(self) -> bool {
        !self.is_nan_spec() && self.value() < 0
    }

    /// Above one hundred; what is no number is not.
    pub open spec fn above_hundred_spec(self) -> bool {
        !self.is_nan_spec() && self.value() > 100 * one()
    }

    /// At most `other`; what is no number compares to nothing.
    pub open spec fn at_most_spec(self, other: Self) -> bool {
        !self.is_nan_spec() && !other.is_nan_spec() && self.value() <= other.value()
    }

    proof fn lemma_magnitude_bounds(self)
        ensures
            self.magnitude() < 0x10_0000_0000_0000 * pow2(self.exponent()),
            self.exponent() > 0 ==> self.magnitude() >= 0x10_0000_0000_0000 * pow2(
                (self.exponent() - 1) as nat,
            ),
    {
        let f = self.fraction();
        if self.exponent() == 0 {
            lemma2_to64();
        } else {
            let p = pow2((self.exponent() - 1) as nat);
            lemma_pow2_unfold(self.exponent());
            lemma_pow2_pos((self.exponent() - 1) as nat);
            assert((0x10_0000_0000_0000 + f) * p < 0x10_0000_0000_0000 * (2 * p))
                by (nonlinear_arith)
                requires
                    f < 0x10_0000_0000_0000,
                    p > 0,
            ;
            assert((0x10_0000_0000_0000 + f) * p >= 0x10_0000_0000_0000 * p) by (nonlinear_arith)
                requires
                    f >= 0,
                    p > 0,
            ;
        }
    }

    /// Of two numbers without their signs, that with the smaller bits is the smaller.
    proof fn lemma_magnitude_ordered(self, other: Self)
        requires
            self.bits % SIGN_BIT < other.bits % SIGN_BIT,
        ensures
            self.magnitude() < other.magnitude(),
    {
        let (e, g) = (self.exponent(), other.exponent());
        if e == g {
            assert(self.fraction() < other.fraction());
            if e > 0 {
                let p = pow2((e - 1) as nat);
                lemma_pow2_pos((e - 1) as nat);
                let (f, h) = (self.fraction(), other.fraction());
                assert((0x10_0000_0000_0000 + f) * p < (0x10_0000_0000_0000 + h) * p)
                    by (nonlinear_arith)
                    requires
                        f < h,
                        p > 0,
                ;
            }
        } else {
            assert(e < g);
            self.lemma_magnitude_bounds();
            other.lemma_magnitude_bounds();
            if e + 1 < g {
                lemma_pow2_strictly_increases(e, (g - 1) as nat);
            }
        }
    }

    /// Whether the bits stand for no number.
    pub fn is_nan(self) -> (r: bool)
        ensures
            r == self.is_nan_spec(),
    {
        self.bits % SIGN_BIT > INFINITY_BITS
    }

    /// Whether the number is below zero.
    pub fn below_zero(self) -> (r: bool)
        ensures
            r == self.below_zero_spec(),
    {
        proof {
            self.lemma_magnitude_zero();
        }
        !self.is_nan() && self.bits > SIGN_BIT
    }

    proof fn lemma_magnitude_zero(self)
        ensures
            self.magnitude() == 0 <==> self.bits % SIGN_BIT == 0,
    {
        let zero = Double { bits: 0 };
        assert(zero.magnitude() == 0);
        if self.bits % SIGN_BIT > 0 {
            zero.lemma_magnitude_ordered(self);
        }
    }

    proof fn lemma_hundred()
        ensures
            (Double { bits: HUNDRED_BITS }).magnitude() == 100 * one(),
    {
        let p = Double { bits: HUNDRED_BITS };
        assert(p.exponent() == 1029);
        lemma_pow2_adds(46, 1028);
        lemma2_to64_rest();
        assert(100 * (0x4000_0000_0000 * pow2(1028)) == (100 * 0x4000_0000_0000) * pow2(1028))
            by (nonlinear_arith);
    }

    /// Bits up to those of one hundred stand for numbers up to one hundred.
    pub proof fn lemma_up_to_hundred(self)
        requires
            self.bits <= 0x4059_0000_0000_0000,
        ensures
            !self.negative(),
            !self.is_nan_spec(),
            self.magnitude() <= 100 * one(),
    {
        let hundred = Double { bits: HUNDRED_BITS };
        Double::lemma_hundred();
        if self.bits < HUNDRED_BITS {
            self.lemma_magnitude_ordered(hundred);
        }
    }

    /// Whether the number is above one hundred.
    pub fn above_hundred(self) -> (r: bool)
        ensures
            r == self.above_hundred_spec(),
    {
        proof {
            let hundred = Double { bits: HUNDRED_BITS };
            Double::lemma_hundred();
            if self.bits % SIGN_BIT > HUNDRED_BITS {
                hundred.lemma_magnitude_ordered(self);
            } else if self.bits % SIGN_BIT < HUNDRED_BITS {
                self.lemma_magnitude_ordered(hundred);
            }
        }
        !self.is_nan() && self.bits < SIGN_BIT && self.bits > HUNDRED_BITS
    }

    /// Whether the number is at most another.
    pub fn at_most(self, other: Self) -> (r: bool)
        ensures
            r == self.at_most_spec(other),
    {
        let a: u64 = self.bits % SIGN_BIT;
        let b: u64 = other.bits % SIGN_BIT;
        proof {
            self.lemma_magnitude_zero();
            other.lemma_magnitude_zero();
            if a < b {
                self.lemma_magnitude_ordered(other);
            } else if b < a {
                other.lemma_magnitude_ordered(self);
            } else {
                assert(self.magnitude() == other.magnitude());
            }
        }
        if self.is_nan() || other.is_nan() {
            false
        } else if self.bits < SIGN_BIT {
            (other.bits < SIGN_BIT && a <= b) || (a == 0 && b == 0)
        } else {
            other.bits < SIGN_BIT || b <= a
        }
    }
}

/// Whether `ratio` is the quotient of the doubles nearest to two integers. Over zero, zero gives
/// what is no number, and all else infinity.
pub open spec fn is_ratio(numerator: u64, denominator: u64, ratio: Double) -> bool {
    if denominator > 0 {
        &&& !ratio.negative()
        &&& !ratio.is_nan_spec()
        &&& ratio.magnitude() == quotient(
            from_integer(numerator as nat),
            from_integer(denominator as nat),
        )
    } else if numerator > 0 {
        ratio.bits == INFINITY_BITS
    } else {
        ratio.is_nan_spec()
    }
}

/// The double of `w` times two to the power of `e` steps.
fn encode(w: u128, e: u64) -> (r: Double)
    requires
        MIN_SIGNIFICAND <= w < SIGNIFICAND_LIMIT,
        e < 2000,
    ensures
        !r.negative(),
        !r.is_nan_spec(),
        r.magnitude() == w * pow2(e as nat),
{
    let r = Double { bits: (e + 1) * FRACTION_LIMIT + (w - MIN_SIGNIFICAND) as u64 };
    assert(r.exponent() == e + 1);
    assert(r.fraction() == w - MIN_SIGNIFICAND);
    r
}

/// The quotient of two integers in double precision.
pub fn ratio(numerator: u64, denominator: u64) -> (r: Double)
    ensures
        is_ratio(numerator, denominator, r),
{
    if denominator == 0 {
        if numerator == 0 {
            return Double { bits: NAN_BITS };
        }
        return Double { bits: INFINITY_BITS };
    }
    let a: u128 = round_quotient(numerator as u128, 1);
    let b: u128 = round_quotient(denominator as u128, 1);
    proof {
        lemma2_to64();
        lemma2_to64_rest();
        lemma_rounded_below_power(numerator as nat, 1, 64);
        lemma_rounded_below_power(denominator as nat, 1, 64);
        lemma_rounded_positive(denominator as nat, 1);
        lemma_quotient_of_integers(numerator as nat, denominator as nat);
    }
    if numerator == 0 {
        proof {
            lemma_small_integer_exact(0);
            assert(0 * one() == 0);
            lemma_rounded_within_significand(0, b as nat);
        }
        return Double { bits: 0 };
    }
    proof {
        lemma_rounded_positive(numerator as nat, 1);
    }
    // Scale the numerator until the quotient fills the significand.
    let mut x: u128 = a;
    let mut k: u64 = 0;
    while x / b < MIN_SIGNIFICAND
        invariant
            1 <= x,
            x == a * pow2(k as nat),
            1 <= a,
            1 <= b <= 0x1_0000_0000_0000_0000,
            x < 0x100_0000_0000_0000_0000_0000_0000_0000,
            k <= 117,
            pow2(k as nat) <= x,
        decreases 117 - k,
    {
        proof {
            lemma_fundamental_div_mod(x as int, b as int);
            let q = x / b;
            assert(x < MIN_SIGNIFICAND * b) by (nonlinear_arith)
                requires
                    x < b * q + b,
                    q + 1 <= MIN_SIGNIFICAND,
                    b >= 1,
            ;
            assert(x < 0x10_0000_0000_0000 * 0x1_0000_0000_0000_0000);
            lemma_pow2_unfold((k + 1) as nat);
            lemma_pow2_adds(64, 53);
            lemma2_to64_rest();
            if k == 117 {
                assert(pow2(117) <= x);
            }
            assert(a * (2 * pow2(k as nat)) == 2 * (a * pow2(k as nat))) by (nonlinear_arith);
        }
        x = x * 2;
        k = k + 1;
    }
    let total: u128 = round_quotient(x, b);
    proof {
        lemma_pow2_adds(k as nat, (1074 - k) as nat);
        let (p, q) = (pow2(k as nat), pow2((1074 - k) as nat));
        assert(a * one() == x * q) by (nonlinear_arith)
            requires
                one() == p * q,
                x == a * p,
        ;
        lemma_rounded_scales(x as nat, b as nat, (1074 - k) as nat);
        lemma_rounded_keeps_significand(x as nat, b as nat);
    }
    // Take out the powers of two beyond the significand.
    let mut w: u128 = total;
    let mut e: u64 = 0;
    let ghost mut d: nat = b as nat;
    proof {
        lemma_pow2_adds(64, 60);
        lemma_div_is_ordered_by_denominator(x as int, 1, b as int);
        lemma_rounded_below_power(x as nat, b as nat, 124);
    }
    while w > SIGNIFICAND_LIMIT
        invariant
            w == rounded(x as nat, d),
            d > 0,
            total == w * pow2(e as nat),
            w >= MIN_SIGNIFICAND,
            total <= 0x1000_0000_0000_0000_0000_0000_0000_0000,
            e <= 124,
            pow2(e as nat) <= total,
        decreases w,
    {
        proof {
            if x as nat / d < SIGNIFICAND_LIMIT {
                lemma2_to64_rest();
                lemma_rounded_below_power(x as nat, d, 53);
            }
            lemma_rounded_halves(x as nat, d);
            lemma_div_denominator(x as int, d as int, 2);
            d = 2 * d;
            lemma_pow2_unfold((e + 1) as nat);
            lemma_pow2_adds(64, 60);
            lemma2_to64_rest();
            let h = w / 2;
            assert((2 * h) * pow2(e as nat) == h * (2 * pow2(e as nat))) by (nonlinear_arith);
            assert(h * pow2((e + 1) as nat) >= pow2((e + 1) as nat)) by (nonlinear_arith)
                requires
                    h >= 1,
            ;
            if e == 124 {
                lemma_pow2_strictly_increases(124, 125);
            }
        }
        w = w / 2;
        e = e + 1;
    }
    proof {
        lemma_pow2_unfold((e + 1) as nat);
        lemma_pow2_adds(e as nat, (1074 - k) as nat);
        lemma_pow2_adds((e + 1) as nat, (1074 - k) as nat);
        let q = pow2((1074 - k) as nat);
        assert(total * q == w * pow2((e + 1074 - k) as nat)) by (nonlinear_arith)
            requires
                total == w * pow2(e as nat),
                pow2((e + 1074 - k) as nat) == pow2(e as nat) * q,
        ;
        assert((MIN_SIGNIFICAND * 2) * pow2(e as nat) == MIN_SIGNIFICAND * (2 * pow2(e as nat)))
            by (nonlinear_arith);
        assert(w == SIGNIFICAND_LIMIT ==> total * q == MIN_SIGNIFICAND * pow2(
            (e + 1 + 1074 - k) as nat,
        )) by (nonlinear_arith)
            requires
                total == w * pow2(e as nat),
                SIGNIFICAND_LIMIT == MIN_SIGNIFICAND * 2,
                pow2((e + 1) as nat) == 2 * pow2(e as nat),
                pow2((e + 1 + 1074 - k) as nat) == pow2((e + 1) as nat) * q,
        ;
    }
    if w == SIGNIFICAND_LIMIT {
        encode(MIN_SIGNIFICAND, e + 1 + 1074 - k)
    } else {
        encode(w, e + 1074 - k)
    }
}

/// Numbers that are not negative and of equal value have the same bits.
pub proof fn law_value_has_one_form(a: Double, b: Double)
    requires
        !a.negative(),
        !b.negative(),
        a.magnitude() == b.magnitude(),
    ensures
        a == b,
{
    if a.bits < b.bits {
        a.lemma_magnitude_ordered(b);
    } else if b.bits < a.bits {
        b.lemma_magnitude_ordered(a);
    }
}

/// Doubles in the order of their bits are in the order of their values, a step at a time: from
/// zero on, each is above the one before it by the step of that one's exponent.
pub proof fn law_value_by_steps(a: Double, b: Double)
    requires
        b.bits == a.bits + 1,
        b.bits <= 0x7ff0_0000_0000_0000,
    ensures
        a.bits == 0 ==> a.magnitude() == 0,
        a.bits < 0x10_0000_0000_0000 ==> b.magnitude() == a.magnitude() + 1,
        a.bits >= 0x10_0000_0000_0000 ==> b.magnitude() == a.magnitude() + pow2(
            (a.bits / 0x10_0000_0000_0000 - 1) as nat,
        ),
        b.value() == b.magnitude(),
{
    lemma2_to64();
    let e = a.exponent();
    let f = a.fraction();
    assert(e == a.bits / 0x10_0000_0000_0000);
    if e > 0 {
        let p = pow2((e - 1) as nat);
        lemma_pow2_unfold(e);
        if f + 1 < 0x10_0000_0000_0000 {
            assert(b.exponent() == e && b.fraction() == f + 1);
            assert((0x10_0000_0000_0000 + f + 1) * p == (0x10_0000_0000_0000 + f) * p + p)
                by (nonlinear_arith);
        } else {
            assert(b.exponent() == e + 1 && b.fraction() == 0);
            assert((0x10_0000_0000_0000 + f) * p + p == 0x10_0000_0000_0000 * (2 * p))
                by (nonlinear_arith)
                requires
                    f == 0x10_0000_0000_0000 - 1,
            ;
        }
    } else if f + 1 < 0x10_0000_0000_0000 {
        assert(b.exponent() == 0 && b.fraction() == f + 1);
    } else {
        assert(b.exponent() == 1 && b.fraction() == 0);
        assert(0x10_0000_0000_0000 * pow2(0) == 0x10_0000_0000_0000);
    }
}

/// What is no number has bits above those of infinity, apart from the sign.
pub proof fn law_not_a_number(a: Double, nan: bool)
    requires
        call_ensures(Double::is_nan, (a,), nan),
    ensures
        nan <==> a.bits % 0x8000_0000_0000_0000 > 0x7ff0_0000_0000_0000,
{
}

/// What is no number compares to nothing. Of numbers with a sign alike, those without are ordered
/// as their bits are, and those with it the other way round; else the one with the sign is at
/// most the other, and the other way only where both are zero.
pub proof fn law_at_most(a: Double, b: Double, at_most: bool)
    requires
        call_ensures(Double::at_most, (a, b), at_most),
    ensures
        a.bits % 0x8000_0000_0000_0000 > 0x7ff0_0000_0000_0000 ==> !at_most,
        b.bits % 0x8000_0000_0000_0000 > 0x7ff0_0000_0000_0000 ==> !at_most,
        a.bits % 0x8000_0000_0000_0000 <= 0x7ff0_0000_0000_0000 && b.bits % 0x8000_0000_0000_0000
            <= 0x7ff0_0000_0000_0000 ==> {
            &&& a.bits < 0x8000_0000_0000_0000 && b.bits < 0x8000_0000_0000_0000 ==> at_most == (
            a.bits <= b.bits)
            &&& a.bits >= 0x8000_0000_0000_0000 && b.bits >= 0x8000_0000_0000_0000 ==> at_most == (
            a.bits >= b.bits)
            &&& a.bits >= 0x8000_0000_0000_0000 && b.bits < 0x8000_0000_0000_0000 ==> at_most
            &&& a.bits < 0x8000_0000_0000_0000 && b.bits >= 0x8000_0000_0000_0000 ==> at_most == (
            a.bits == 0 && b.bits == 0x8000_0000_0000_0000)
        },
{
    let (x, y) = (a.bits % SIGN_BIT, b.bits % SIGN_BIT);
    a.lemma_magnitude_zero();
    b.lemma_magnitude_zero();
    if x < y {
        a.lemma_magnitude_ordered(b);
    } else if y < x {
        b.lemma_magnitude_ordered(a);
    } else {
        assert(a.magnitude() == b.magnitude());
    }
}

/// A number is below zero where zero is not at most it, and above one hundred where it is not at
/// most one hundred; what is no number is neither.
pub proof fn law_out_of_percent(
    a: Double,
    below: bool,
    above: bool,
    zero_at_most: bool,
    at_most_hundred: bool,
)
    requires
        call_ensures(Double::below_zero, (a,), below),
        call_ensures(Double::above_hundred, (a,), above),
        call_ensures(Double::at_most, (Double { bits: 0 }, a), zero_at_most),
        call_ensures(Double::at_most, (a, Double { bits: 0x4059_0000_0000_0000 }), at_most_hundred),
    ensures
        a.bits % 0x8000_0000_0000_0000 > 0x7ff0_0000_0000_0000 ==> !below && !above,
        a.bits % 0x8000_0000_0000_0000 <= 0x7ff0_0000_0000_0000 ==> below == !zero_at_most && above
            == !at_most_hundred,
        below <==> 0x8000_0000_0000_0000 < a.bits <= 0xfff0_0000_0000_0000,
        above <==> 0x4059_0000_0000_0000 < a.bits <= 0x7ff0_0000_0000_0000,
{
    let (zero, hundred) = (Double { bits: 0 }, Double { bits: HUNDRED_BITS });
    law_at_most(zero, a, zero_at_most);
    law_at_most(a, hundred, at_most_hundred);
    Double::lemma_hundred();
    a.lemma_magnitude_zero();
    zero.lemma_magnitude_zero();
}

/// A ratio is a number that is not negative, and lies within one part in two to the power of 53
/// of the exact quotient, up to a step; of equal amounts it is one, and of nothing zero. Over
/// nothing, some gives infinity and nothing what is no number.
pub proof fn law_ratio(numerator: u64, denominator: u64, r: Double)
    requires
        call_ensures(ratio, (numerator, denominator), r),
    ensures
        denominator == 0 && numerator > 0 ==> r.bits == 0x7ff0_0000_0000_0000,
        denominator == 0 && numerator == 0 ==> r.bits % 0x8000_0000_0000_0000
            > 0x7ff0_0000_0000_0000,
        denominator > 0 ==> r.bits <= 0x7ff0_0000_0000_0000,
        denominator > 0 && numerator == 0 ==> r.bits == 0,
        denominator > 0 && numerator == denominator ==> r.bits == 0x3ff0_0000_0000_0000,
        0 < denominator < 0x20_0000_0000_0000 && numerator < 0x20_0000_0000_0000 ==> {
            let (exact, over) = (numerator * pow2(1074), r.magnitude() * denominator);
            &&& 0x20_0000_0000_0000 * (over - exact) <= exact + 0x10_0000_0000_0000 * denominator
            &&& 0x20_0000_0000_0000 * (exact - over) <= exact + 0x10_0000_0000_0000 * denominator
        },
{
    let (n, d) = (numerator as nat, denominator as nat);
    if d > 0 {
        let zero = Double { bits: 0 };
        lemma_rounded_positive(d, 1);
        lemma_quotient_of_integers(n, d);
        lemma_pow2_pos(1074);
        let (a, b) = (rounded(n, 1), rounded(d, 1));
        if n == 0 {
            lemma_small_integer_exact(0);
            assert(0 * one() == 0);
            lemma_rounded_within_significand(0, b);
            r.lemma_magnitude_zero();
        }
        if n == d {
            let unit = Double { bits: 0x3ff0_0000_0000_0000 };
            assert(unit.exponent() == 1023 && unit.fraction() == 0);
            lemma_pow2_adds(52, 1022);
            lemma2_to64_rest();
            assert(b * 1 == b);
            assert(a * one() == b * one());
            lemma_rounded_cancels(one(), 1, b);
            lemma_rounded_integer_scales(1, 1074);
            lemma_small_integer_exact(1);
            assert(1 * one() == one());
            law_value_has_one_form(r, unit);
        }
        if n < 0x20_0000_0000_0000 && d < 0x20_0000_0000_0000 {
            lemma_small_integer_exact(n);
            lemma_small_integer_exact(d);
            law_rounded_near(n * one(), d);
        }
    }
}

} // verus!
