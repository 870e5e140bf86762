//! Binary64 numbers, kept as their bit patterns.
//!
//! Arithmetic is done in integers and rounds to nearest, ties to even.

use vstd::arithmetic::mul::lemma_mul_inequality;
use vstd::arithmetic::mul::lemma_mul_is_commutative;
use vstd::arithmetic::mul::lemma_mul_strict_inequality;
use vstd::arithmetic::power2::lemma2_to64;
use vstd::arithmetic::power2::lemma2_to64_rest;
use vstd::arithmetic::power2::lemma_pow2_adds;
use vstd::arithmetic::power2::lemma_pow2_pos;
use vstd::arithmetic::power2::lemma_pow2_strictly_increases;
use vstd::arithmetic::power2::pow2;
use vstd::bits::lemma_u64_shl_is_mul;
use vstd::prelude::*;

verus! {

/// The sign bit of a pattern, as a number.
pub const SIGN_BIT: u64 = 0x8000_0000_0000_0000;

/// The pattern of positive infinity; a larger one, the sign aside, is a NaN.
pub const INFINITY_BITS: u64 = 0x7ff0_0000_0000_0000;

/// The pattern that stands for a result that is not a number.
pub const NAN_BITS: u64 = 0x7ff8_0000_0000_0000;

/// How many fractions there are for one exponent field.
pub const FRACTIONS: u64 = 0x10_0000_0000_0000;

/// A binary64 number.
#[derive(Clone, Copy, Debug, PartialEq, Eq, Structural)]
pub struct Double {
    pub bits: u64,
}

/// The number that the unsigned pattern `bits` stands for, in units of the
/// smallest positive binary64 number, two to the power of -1074. The pattern
/// of infinity stands for two to the power of 1024, which lies above every
/// finite number.
pub open spec fn units(bits: int) -> int {
    let exponent = bits / (FRACTIONS as int);
    let fraction = bits % (FRACTIONS as int);
    if exponent == 0 {
        fraction
    } else {
        (FRACTIONS + fraction) * pow2((exponent - 1) as nat)
    }
}

/// One, in the units of [`units`].
pub open spec fn one() -> int {
    pow2(1074) as int
}

/// Twice what lies in the middle between the numbers of an unsigned pattern and
/// of the next one.
pub open spec fn twice_middle(bits: int) -> int {
    units(bits) + units(bits + 1)
}

/// Whether `bits` is the unsigned pattern of the number nearest to `num / den`
/// units. In the middle between two numbers, the even pattern is taken.
pub open spec fn rounds_to(num: int, den: int, bits: int) -> bool {
    &&& 0 <= bits <= INFINITY_BITS
    &&& bits > 0 ==> {
        ||| twice_middle(bits - 1) * den < 2 * num
        ||| twice_middle(bits - 1) * den == 2 * num && bits % 2 == 0
    }
    &&& bits < INFINITY_BITS ==> {
        ||| 2 * num < twice_middle(bits) * den
        ||| 2 * num == twice_middle(bits) * den && bits % 2 == 0
    }
}

/// The unsigned pattern of the number nearest to `num / den` units.
pub open spec fn rounded(num: int, den: int) -> int {
    choose|bits: int| rounds_to(num, den, bits)
}

/// The number nearest to `num / den` units, for a positive `den`.
pub open spec fn nearest(num: int, den: int) -> Double {
    if num < 0 {
        Double { bits: (SIGN_BIT + rounded(-num, den)) as u64 }
    } else {
        Double { bits: rounded(num, den) as u64 }
    }
}

impl Double {
    /// Whether the sign bit is set.
    pub open spec fn negative(self) -> bool {
        self.bits >= SIGN_BIT
    }

    /// The pattern without its sign bit.
    pub open spec fn unsigned_bits(self) -> int {
        self.bits as int % SIGN_BIT as int
    }

    /// Whether this is no number.
    pub open spec fn is_nan(self) -> bool {
        self.unsigned_bits() > INFINITY_BITS
    }

    /// Whether this is an infinity.
    pub open spec fn is_infinite(self) -> bool {
        self.unsigned_bits() == INFINITY_BITS
    }

    /// Whether this is a number, and no infinity.
    pub open spec fn is_finite(self) -> bool {
        self.unsigned_bits() < INFINITY_BITS
    }

    /// The number in units of two to the power of -1074, an infinity standing
    /// beyond all finite numbers. Of a NaN it says nothing.
    pub open spec fn value(self) -> int {
        if self.negative() {
            -units(self.unsigned_bits())
        } else {
            units(self.unsigned_bits())
        }
    }

    /// Whether both are numbers, and this one is the greater.
    pub open spec fn gt(self, other: Double) -> bool {
        !self.is_nan() && !other.is_nan() && self.value() > other.value()
    }

    /// Whether both are numbers, and this one is not the smaller.
    pub open spec fn ge(self, other: Double) -> bool {
        !self.is_nan() && !other.is_nan() && self.value() >= other.value()
    }

    /// The pattern of a zero.
    pub open spec fn zero(negative: bool) -> Double {
        Double { bits: if negative { SIGN_BIT } else { 0 } }
    }

    /// The pattern of an infinity.
    pub open spec fn infinity(negative: bool) -> Double {
        Double { bits: if negative { (SIGN_BIT + INFINITY_BITS) as u64 } else { INFINITY_BITS } }
    }

    /// The pattern of what is no number.
    pub open spec fn nan() -> Double {
        Double { bits: NAN_BITS }
    }

    /// The whole number `n`.
    pub open spec fn of_int(n: int) -> Double {
        nearest(n * one(), 1)
    }

    /// The number with the other sign.
    pub open spec fn negated(self) -> Double {
        Double {
            bits: if self.negative() {
                (self.bits - SIGN_BIT) as u64
            } else {
                (self.bits + SIGN_BIT) as u64
            },
        }
    }

    /// The number without its sign.
    pub open spec fn magnitude(self) -> Double {
        Double { bits: self.unsigned_bits() as u64 }
    }

    /// The sum.
    pub open spec fn plus(self, other: Double) -> Double {
        if self.is_nan() || other.is_nan() {
            Double::nan()
        } else if self.is_infinite() {
            if other.is_infinite() && self.negative() != other.negative() {
                Double::nan()
            } else {
                self
            }
        } else if other.is_infinite() {
            other
        } else if self.value() + other.value() == 0 {
            Double::zero(self.negative() && other.negative())
        } else {
            nearest(self.value() + other.value(), 1)
        }
    }

    /// The difference.
    pub open spec fn minus(self, other: Double) -> Double {
        self.plus(other.negated())
    }

    /// The product.
    pub open spec fn times(self, other: Double) -> Double {
        let negative = self.negative() != other.negative();
        if self.is_nan() || other.is_nan() {
            Double::nan()
        } else if self.is_infinite() || other.is_infinite() {
            if self.value() == 0 || other.value() == 0 {
                Double::nan()
            } else {
                Double::infinity(negative)
            }
        } else if self.value() == 0 || other.value() == 0 {
            Double::zero(negative)
        } else {
            nearest(self.value() * other.value(), one())
        }
    }

    /// The quotient.
    pub open spec fn over(self, other: Double) -> Double {
        let negative = self.negative() != other.negative();
        if self.is_nan() || other.is_nan() {
            Double::nan()
        } else if self.is_infinite() {
            if other.is_infinite() {
                Double::nan()
            } else {
                Double::infinity(negative)
            }
        } else if other.is_infinite() {
            Double::zero(negative)
        } else if other.value() == 0 {
            if self.value() == 0 {
                Double::nan()
            } else {
                Double::infinity(negative)
            }
        } else if self.value() == 0 {
            Double::zero(negative)
        } else if other.value() > 0 {
            nearest(self.value() * one(), other.value())
        } else {
            nearest(-self.value() * one(), -other.value())
        }
    }
}

/// No unsigned pattern stands for a negative number.
pub proof fn lemma_units_nonnegative(bits: int)
    requires
        bits >= 0,
    ensures
        units(bits) >= 0,
{
    let exponent = bits / (FRACTIONS as int);
    if exponent > 0 {
        lemma_pow2_pos((exponent - 1) as nat);
        assert(units(bits) >= 0) by (nonlinear_arith)
            requires
                units(bits) == (FRACTIONS + bits % (FRACTIONS as int)) * pow2((exponent - 1) as nat),
                pow2((exponent - 1) as nat) > 0,
                bits % (FRACTIONS as int) >= 0,
        ;
    }
}

/// A larger unsigned pattern stands for a larger number.
pub proof fn lemma_units_increase(low: int, high: int)
    requires
        0 <= low < high,
    ensures
        units(low) < units(high),
{
    let f = FRACTIONS as int;
    let el = low / f;
    let eh = high / f;
    lemma2_to64();
    if el == eh {
        if el > 0 {
            lemma_pow2_pos((el - 1) as nat);
            lemma_mul_strict_inequality(f + low % f, f + high % f, pow2((el - 1) as nat) as int);
        }
    } else {
        assert(el < eh);
        let ph = pow2((eh - 1) as nat) as int;
        lemma_pow2_pos((eh - 1) as nat);
        lemma_mul_inequality(f, f + high % f, ph);
        if el == 0 {
            lemma_mul_inequality(1, ph, f);
        } else {
            let pl = pow2((el - 1) as nat) as int;
            lemma_pow2_pos((el - 1) as nat);
            lemma_mul_strict_inequality(f + low % f, 2 * f, pl);
            lemma_pow2_adds(1, (el - 1) as nat);
            if el < eh - 1 {
                lemma_pow2_strictly_increases(el as nat, (eh - 1) as nat);
            }
            assert(2 * pl <= ph);
            assert(2 * f * pl <= f * ph) by (nonlinear_arith)
                requires
                    2 * pl <= ph,
                    f > 0,
            ;
        }
    }
}

/// Only the zero pattern stands for zero.
pub proof fn lemma_units_zero(bits: int)
    requires
        bits >= 0,
    ensures
        units(bits) == 0 <==> bits == 0,
        units(0) == 0,
{
    if bits > 0 {
        lemma_units_increase(0, bits);
    }
}

/// The patterns of the numbers with a given scale.
pub proof fn lemma_units_at_scale(scale: nat, significand: int)
    requires
        0 <= significand <= 2 * FRACTIONS,
        scale == 0 || significand >= FRACTIONS,
    ensures
        units(scale * FRACTIONS + significand) == significand * pow2(scale),
{
    let f = FRACTIONS as int;
    let bits = scale * FRACTIONS + significand;
    lemma2_to64();
    if significand < f {
        assert(bits / f == 0 && bits % f == significand) by (nonlinear_arith)
            requires
                bits == significand,
                0 <= significand < f,
        ;
    } else if significand < 2 * f {
        assert(bits / f == scale + 1 && bits % f == significand - f) by (nonlinear_arith)
            requires
                bits == scale * f + significand,
                f <= significand < 2 * f,
                f == 0x10_0000_0000_0000,
        ;
    } else {
        assert(bits / f == scale + 2 && bits % f == 0) by (nonlinear_arith)
            requires
                bits == scale * f + 2 * f,
                f == 0x10_0000_0000_0000,
        ;
        lemma_pow2_adds(1, scale);
        assert(f * pow2(1 + scale) == (2 * f) * pow2(scale)) by (nonlinear_arith)
            requires
                pow2(1 + scale) == 2 * pow2(scale),
        ;
    }
}

/// There is at most one nearest number.
pub proof fn lemma_rounding_is_unique(num: int, den: int, a: int, b: int)
    requires
        den > 0,
        rounds_to(num, den, a),
        rounds_to(num, den, b),
    ensures
        a == b,
{
    lemma_rounding_is_ordered(num, den, a, b);
    lemma_rounding_is_ordered(num, den, b, a);
}

/// Of two nearest patterns, neither is the smaller.
proof fn lemma_rounding_is_ordered(num: int, den: int, a: int, b: int)
    requires
        den > 0,
        rounds_to(num, den, a),
        rounds_to(num, den, b),
    ensures
        a >= b,
{
    if a < b - 1 {
        lemma_units_increase(a, b - 1);
        lemma_units_increase(a + 1, b);
        lemma_mul_strict_inequality(twice_middle(a), twice_middle(b - 1), den);
    }
}

/// The pattern that was found to be nearest is the one that is meant.
pub proof fn lemma_rounded(num: int, den: int, bits: int)
    requires
        den > 0,
        rounds_to(num, den, bits),
    ensures
        rounded(num, den) == bits,
{
    lemma_rounding_is_unique(num, den, rounded(num, den), bits);
}

/// A number that has a pattern rounds to itself.
pub proof fn lemma_exact_rounds_to_itself(den: int, bits: int)
    requires
        den > 0,
        0 <= bits <= INFINITY_BITS,
    ensures
        rounds_to(units(bits) * den, den, bits),
        rounded(units(bits) * den, den) == bits,
{
    let num = units(bits) * den;
    assert(2 * num == (2 * units(bits)) * den) by (nonlinear_arith)
        requires
            num == units(bits) * den,
    ;
    if bits > 0 {
        lemma_units_increase(bits - 1, bits);
        lemma_mul_strict_inequality(twice_middle(bits - 1), 2 * units(bits), den);
    }
    lemma_units_increase(bits, bits + 1);
    lemma_mul_strict_inequality(2 * units(bits), twice_middle(bits), den);
    lemma_rounded(num, den, bits);
}

/// How many bits the number `n` takes.
fn bit_length(n: u128) -> (length: u64)
    ensures
        length <= 128,
        n < pow2(length as nat),
        length > 0 ==> n >= pow2((length - 1) as nat),
        n == 0 <==> length == 0,
{
    let mut rest: u128 = n;
    let mut length: u64 = 0;
    proof {
        lemma2_to64();
    }
    while rest > 0
        invariant
            length <= 128,
            rest * pow2(length as nat) <= n < (rest + 1) * pow2(length as nat),
            length > 0 && rest == 0 ==> n >= pow2((length - 1) as nat),
            n == 0 ==> length == 0,
            n != 0 && length == 0 ==> rest > 0,
        decreases rest,
    {
        proof {
            if length == 128 {
                lemma2_to64();
                lemma_pow2_adds(64, 64);
                assert(rest * pow2(128) >= pow2(128)) by (nonlinear_arith)
                    requires
                        rest >= 1,
                ;
                assert(0x1_0000_0000_0000_0000 * 0x1_0000_0000_0000_0000
                    == 0x1_0000_0000_0000_0000_0000_0000_0000_0000);
            }
            let p = pow2(length as nat) as int;
            let r = rest as int;
            lemma2_to64();
            lemma_pow2_pos(length as nat);
            lemma_pow2_adds(1, length as nat);
            assert(pow2((length + 1) as nat) == 2 * p);
            assert((r / 2) * (2 * p) <= r * p) by (nonlinear_arith)
                requires
                    p > 0,
                    r >= 0,
            ;
            assert((r + 1) * p <= (r / 2 + 1) * (2 * p)) by (nonlinear_arith)
                requires
                    p > 0,
                    r >= 0,
            ;
            assert(r * p >= p) by (nonlinear_arith)
                requires
                    r >= 1,
                    p >= 0,
            ;
        }
        rest = rest / 2;
        length = length + 1;
    }
    assert((rest + 1) * pow2(length as nat) == pow2(length as nat)) by (nonlinear_arith)
        requires
            rest == 0,
    ;
    length
}

/// Two to the power of `exponent`.
fn power_of_two(exponent: u64) -> (power: u128)
    requires
        exponent < 128,
    ensures
        power == pow2(exponent as nat),
        power >= 1,
{
    proof {
        lemma2_to64();
        lemma_pow2_pos(exponent as nat);
    }
    if exponent < 64 {
        proof {
            lemma_pow2_strictly_increases(exponent as nat, 64);
            lemma_u64_shl_is_mul(1, exponent);
        }
        (1u64 << exponent) as u128
    } else {
        let rest: u64 = exponent - 64;
        proof {
            lemma_pow2_strictly_increases(rest as nat, 64);
            lemma_u64_shl_is_mul(1, rest);
            lemma_pow2_adds(rest as nat, 64);
            assert(pow2(rest as nat) * 0x1_0000_0000_0000_0000
                <= 0xffff_ffff_ffff_ffff * 0x1_0000_0000_0000_0000) by (nonlinear_arith)
                requires
                    pow2(rest as nat) <= 0xffff_ffff_ffff_ffff,
            ;
        }
        ((1u64 << rest) as u128) * 0x1_0000_0000_0000_0000u128
    }
}

/// Scaling by a positive factor keeps the order of two numbers.
proof fn lemma_scaled_order(left: int, right: int, factor: int)
    requires
        factor > 0,
    ensures
        left < right <==> left * factor < right * factor,
        left == right <==> left * factor == right * factor,
        left > right <==> left * factor > right * factor,
{
    if left < right {
        lemma_mul_strict_inequality(left, right, factor);
    }
    if right < left {
        lemma_mul_strict_inequality(right, left, factor);
    }
}

/// Whether `num / den` units are `p` times two to the power of `up - down`, or,
/// if there is a `rest`, a little more, but less than `p + 1` times that.
spec fn stands_for(p: int, rest: bool, up: nat, down: nat, num: int, den: int) -> bool {
    let step = pow2(up) * den;
    let scaled = num * pow2(down);
    if rest {
        p * step < scaled < (p + 1) * step
    } else {
        scaled == p * step
    }
}

/// What is that large rounds to infinity.
proof fn lemma_round_overflow(p: int, length: nat, up: nat, down: nat, scale: nat, num: int, den: int)
    requires
        den > 0,
        length > 0,
        p >= pow2((length - 1) as nat),
        num * pow2(down) >= p * (pow2(up) * den),
        up + length == scale + down + 53,
        scale >= 2046,
    ensures
        rounds_to(num, den, INFINITY_BITS as int),
{
    let low = pow2((length - 1) as nat) as int;
    let step = pow2(up) * den;
    let unscale = pow2(down) as int;
    lemma2_to64_rest();
    lemma_pow2_pos(up);
    lemma_pow2_pos(down);
    assert(step > 0) by (nonlinear_arith)
        requires
            step == pow2(up) * den,
            pow2(up) > 0,
            den > 0,
    ;
    lemma_mul_inequality(low, p, step);
    lemma_pow2_adds((length - 1) as nat, up);
    lemma_pow2_adds(scale + 52, down);
    assert((length - 1) as nat + up == scale + 52 + down);
    let high = pow2(scale + 52) as int;
    assert(low * step == (high * den) * unscale) by (nonlinear_arith)
        requires
            step == pow2(up) * den,
            low * pow2(up) == high * unscale,
    ;
    lemma_scaled_order(num, high * den, unscale);
    assert(num >= high * den);
    if scale > 2046 {
        lemma_pow2_strictly_increases(2098, scale + 52);
    }
    let top = INFINITY_BITS as int;
    lemma_units_at_scale(2046, FRACTIONS as int);
    lemma_pow2_adds(52, 2046);
    assert(units(top) == pow2(2098));
    lemma_units_increase(top - 1, top);
    lemma_mul_inequality(units(top), high, den);
    lemma_mul_strict_inequality(twice_middle(top - 1), 2 * units(top), den);
    assert((2 * units(top)) * den == 2 * (units(top) * den)) by (nonlinear_arith);
}

/// What has a pattern with the scale rounds to it.
proof fn lemma_round_exact(p: int, up: nat, down: nat, scale: nat, shift: nat, num: int, den: int)
    requires
        den > 0,
        num * pow2(down) == p * (pow2(up) * den),
        up == shift + scale + down,
        scale <= 2045,
        0 <= p * pow2(shift) < 2 * FRACTIONS,
        scale == 0 || p * pow2(shift) >= FRACTIONS,
    ensures
        rounds_to(num, den, scale * FRACTIONS + p * pow2(shift)),
{
    let m = p * pow2(shift);
    let bits = scale * FRACTIONS + m;
    let unscale = pow2(down) as int;
    lemma_pow2_pos(down);
    lemma_pow2_adds(shift + scale, down);
    lemma_pow2_adds(shift, scale);
    let s = pow2(scale) as int;
    let h = pow2(shift) as int;
    assert(p * (pow2(up) * den) == ((m * s) * den) * unscale) by (nonlinear_arith)
        requires
            m == p * h,
            pow2(up) == (h * s) * unscale,
    ;
    lemma_scaled_order(num, (m * s) * den, unscale);
    lemma_units_at_scale(scale, m);
    assert(bits <= INFINITY_BITS) by (nonlinear_arith)
        requires
            bits == scale * FRACTIONS + m,
            m < 2 * FRACTIONS,
            scale <= 2045,
            FRACTIONS == 0x10_0000_0000_0000,
            INFINITY_BITS == 0x7ff0_0000_0000_0000,
    ;
    assert(bits >= 0) by (nonlinear_arith)
        requires
            bits == scale * FRACTIONS + m,
            m >= 0,
            FRACTIONS == 0x10_0000_0000_0000,
    ;
    lemma_exact_rounds_to_itself(den, bits);
}

/// What is that small rounds to zero.
proof fn lemma_round_vanishes(p: int, length: nat, up: nat, down: nat, num: int, den: int)
    requires
        den > 0,
        0 <= p < pow2(length),
        num * pow2(down) < (p + 1) * (pow2(up) * den),
        up + length < down,
    ensures
        rounds_to(num, den, 0),
{
    let step = pow2(up) * den;
    let unscale = pow2(down) as int;
    lemma2_to64();
    lemma_pow2_pos(up);
    lemma_pow2_pos(down);
    assert(step > 0) by (nonlinear_arith)
        requires
            step == pow2(up) * den,
            pow2(up) > 0,
            den > 0,
    ;
    let high = pow2(length) as int;
    lemma_mul_inequality(p + 1, high, step);
    lemma_pow2_adds(length, up);
    lemma_pow2_adds(1, length + up);
    if up + length + 1 < down {
        lemma_pow2_strictly_increases(up + length + 1, down);
    }
    assert(2 * (high * step) == (2 * pow2(length + up)) * den) by (nonlinear_arith)
        requires
            step == pow2(up) * den,
            pow2(length + up) == high * pow2(up),
    ;
    lemma_mul_inequality((2 * pow2(length + up)) as int, unscale, den);
    lemma_mul_is_commutative(unscale, den);
    assert((2 * num) * unscale == 2 * (num * unscale)) by (nonlinear_arith);
    lemma_scaled_order(2 * num, den, unscale);
    assert(2 * num < den);
    lemma_units_at_scale(0, 0);
    lemma_units_at_scale(0, 1);
    assert(twice_middle(0) == 1);
}

/// What lies between two patterns with the scale rounds to the nearer one.
proof fn lemma_round_between(
    p: int,
    rest: bool,
    up: nat,
    down: nat,
    scale: nat,
    drop: nat,
    q: int,
    rem: int,
    num: int,
    den: int,
)
    requires
        den > 0,
        stands_for(p, rest, up, down, num, den),
        up + drop == scale + down,
        drop >= 1,
        scale <= 2045,
        p == q * pow2(drop) + rem,
        0 <= rem < pow2(drop),
        0 <= q < 2 * FRACTIONS,
        scale == 0 || q >= FRACTIONS,
    ensures
        ({
            let half = pow2((drop - 1) as nat) as int;
            let bits = scale * FRACTIONS + q;
            if rem > half || (rem == half && (rest || q % 2 == 1)) {
                rounds_to(num, den, bits + 1)
            } else {
                rounds_to(num, den, bits)
            }
        }),
{
    let half = pow2((drop - 1) as nat) as int;
    let whole = pow2(drop) as int;
    let bits = scale * FRACTIONS + q;
    let step = pow2(up) * den;
    let unscale = pow2(down) as int;
    let s = pow2(scale) as int;
    let scaled = num * unscale;
    lemma2_to64();
    lemma_pow2_pos(up);
    lemma_pow2_pos(down);
    lemma_pow2_pos(drop);
    lemma_pow2_adds(1, (drop - 1) as nat);
    assert(whole == 2 * half);
    assert(step > 0) by (nonlinear_arith)
        requires
            step == pow2(up) * den,
            pow2(up) > 0,
            den > 0,
    ;
    lemma_pow2_adds(drop, up);
    lemma_pow2_adds(scale, down);
    assert(whole * pow2(up) == s * unscale);
    // A multiple of the scale, both ways.
    assert forall|k: int| #[trigger] ((k * s) * den) * unscale == (k * whole) * step by {
        assert(((k * s) * den) * unscale == (k * whole) * step) by (nonlinear_arith)
            requires
                whole * pow2(up) == s * unscale,
                step == pow2(up) * den,
        ;
    }
    assert(p * step <= scaled < (p + 1) * step) by {
        assert((p + 1) * step == p * step + step) by (nonlinear_arith);
    }
    lemma_units_at_scale(scale, q);
    lemma_units_at_scale(scale, q + 1);
    let low = units(bits);
    let high = units(bits + 1);
    assert(low == q * s && high == (q + 1) * s);
    assert(0 <= bits < INFINITY_BITS && (bits % 2 == q % 2)) by (nonlinear_arith)
        requires
            bits == scale * FRACTIONS + q,
            0 <= q < 2 * FRACTIONS,
            0 <= scale <= 2045,
            FRACTIONS == 0x10_0000_0000_0000,
            INFINITY_BITS == 0x7ff0_0000_0000_0000,
    ;
    // At least the lower pattern, less than the upper one.
    assert(q * whole <= p);
    lemma_mul_inequality(q * whole, p, step);
    assert(((q * s) * den) * unscale == (q * whole) * step);
    lemma_scaled_order(low * den, num, unscale);
    assert(low * den <= num);
    assert(p + 1 <= (q + 1) * whole) by (nonlinear_arith)
        requires
            p == q * whole + rem,
            rem < whole,
    ;
    lemma_mul_inequality(p + 1, (q + 1) * whole, step);
    assert((((q + 1) * s) * den) * unscale == ((q + 1) * whole) * step);
    lemma_scaled_order(num, high * den, unscale);
    assert(num < high * den);
    // Against the middle.
    let middle = (2 * q + 1) * half;
    assert((twice_middle(bits) * den) * unscale == (2 * middle) * step) by {
        assert(low + high == (2 * q + 1) * s) by (nonlinear_arith)
            requires
                low == q * s,
                high == (q + 1) * s,
        ;
        let k = 2 * q + 1;
        assert(((k * s) * den) * unscale == (k * whole) * step);
        assert(k * whole == 2 * middle) by (nonlinear_arith)
            requires
                k == 2 * q + 1,
                middle == (2 * q + 1) * half,
                whole == 2 * half,
        ;
    }
    assert(2 * (p - middle) == 2 * (rem - half)) by (nonlinear_arith)
        requires
            p == q * whole + rem,
            whole == 2 * half,
            middle == (2 * q + 1) * half,
    ;
    assert((2 * num) * unscale == 2 * scaled) by (nonlinear_arith)
        requires
            scaled == num * unscale,
    ;
    assert((2 * middle) * step == 2 * (middle * step)) by (nonlinear_arith);
    lemma_scaled_order(2 * num, twice_middle(bits) * den, unscale);
    if rem > half {
        lemma_mul_strict_inequality(middle, p, step);
    } else if rem < half {
        lemma_mul_inequality(p + 1, middle, step);
    }
    // The neighbours further off.
    if bits > 0 {
        lemma_units_increase(bits - 1, bits);
        lemma_mul_strict_inequality(twice_middle(bits - 1), 2 * low, den);
        assert((2 * low) * den == 2 * (low * den)) by (nonlinear_arith);
    }
    lemma_units_increase(bits + 1, bits + 2);
    lemma_mul_strict_inequality(2 * high, twice_middle(bits + 1), den);
    assert((2 * high) * den == 2 * (high * den)) by (nonlinear_arith);
}

/// The unsigned pattern of the number nearest to `num / den` units, which `p`,
/// `rest`, `up` and `down` stand for.
fn round(
    p: u128,
    rest: bool,
    up: u64,
    down: u64,
    Ghost(num): Ghost<int>,
    Ghost(den): Ghost<int>,
) -> (bits: u64)
    requires
        p < 0x8000_0000_0000_0000_0000_0000_0000_0000,
        up <= 0x4000,
        down <= 0x4000,
        den > 0,
        rest ==> p >= 0x80_0000_0000_0000,
        stands_for(p as int, rest, up as nat, down as nat, num, den),
    ensures
        rounds_to(num, den, bits as int),
        rounded(num, den) == bits,
{
    proof {
        let step = pow2(up as nat) * den;
        lemma2_to64();
        lemma2_to64_rest();
        lemma_pow2_pos(up as nat);
        lemma_pow2_pos(down as nat);
        assert(step > 0) by (nonlinear_arith)
            requires
                step == pow2(up as nat) * den,
                pow2(up as nat) > 0,
                den > 0,
        ;
        assert((p + 1) * step == p * step + step) by (nonlinear_arith);
        assert(p * step <= num * pow2(down as nat) < (p + 1) * step);
    }
    if p == 0 {
        proof {
            assert(num * pow2(down as nat) == 0);
            assert(num == 0) by (nonlinear_arith)
                requires
                    num * pow2(down as nat) == 0,
                    pow2(down as nat) > 0,
            ;
            lemma_units_zero(1);
            lemma_exact_rounds_to_itself(den, 0);
        }
        return 0;
    }
    let length: u64 = bit_length(p);
    proof {
        lemma_pow2_adds(64, 63);
        if length - 1 >= 127 {
            if length - 1 > 127 {
                lemma_pow2_strictly_increases(127, (length - 1) as nat);
            }
        }
        if rest && length < 56 {
            if length < 55 {
                lemma_pow2_strictly_increases(length as nat, 55);
            }
        }
    }
    let top: u64 = up + length;
    let need: u64 = down + 53;
    let scale: u64 = if top > need {
        top - need
    } else {
        0
    };
    if scale > 2045 {
        proof {
            lemma_round_overflow(
                p as int,
                length as nat,
                up as nat,
                down as nat,
                scale as nat,
                num,
                den,
            );
            lemma_rounded(num, den, INFINITY_BITS as int);
        }
        return INFINITY_BITS;
    }
    if scale + down <= up {
        let shift: u64 = up - (scale + down);
        let factor: u128 = power_of_two(shift);
        proof {
            let h = pow2(shift as nat) as int;
            lemma_pow2_pos(shift as nat);
            lemma_pow2_adds(length as nat, shift as nat);
            lemma_pow2_adds((length - 1) as nat, shift as nat);
            if length + shift < 53 {
                lemma_pow2_strictly_increases((length + shift) as nat, 53);
            }
            lemma_mul_strict_inequality(p as int, pow2(length as nat) as int, h);
            lemma_mul_inequality(pow2((length - 1) as nat) as int, p as int, h);
            lemma_mul_inequality(0, p as int, h);
            lemma_round_exact(
                p as int,
                up as nat,
                down as nat,
                scale as nat,
                shift as nat,
                num,
                den,
            );
            lemma_rounded(num, den, scale * FRACTIONS + p * h);
        }
        let significand: u64 = (p * factor) as u64;
        return scale * FRACTIONS + significand;
    }
    let drop: u64 = scale + down - up;
    if drop > length {
        proof {
            lemma_round_vanishes(p as int, length as nat, up as nat, down as nat, num, den);
            lemma_rounded(num, den, 0);
        }
        return 0;
    }
    let whole: u128 = power_of_two(drop);
    let half: u128 = power_of_two(drop - 1);
    let q: u128 = p / whole;
    let rem: u128 = p % whole;
    proof {
        let w = pow2(drop as nat) as int;
        assert(p == q * w + rem) by (nonlinear_arith)
            requires
                q == p / whole,
                rem == p % whole,
                w == whole,
                whole > 0,
        ;
        lemma_pow2_adds((length - drop) as nat, drop as nat);
        if length - drop < 53 {
            lemma_pow2_strictly_increases((length - drop) as nat, 53);
        }
        assert(q < pow2((length - drop) as nat)) by (nonlinear_arith)
            requires
                p == q * w + rem,
                rem >= 0,
                w > 0,
                p < pow2((length - drop) as nat) * w,
        ;
        if scale > 0 {
            assert(length == drop + 53);
            lemma_pow2_adds(52, drop as nat);
            assert(q >= 0x10_0000_0000_0000) by (nonlinear_arith)
                requires
                    p == q * w + rem,
                    rem < w,
                    w > 0,
                    p >= 0x10_0000_0000_0000 * w,
            ;
        }
        lemma_round_between(
            p as int,
            rest,
            up as nat,
            down as nat,
            scale as nat,
            drop as nat,
            q as int,
            rem as int,
            num,
            den,
        );
    }
    let below: u64 = scale * FRACTIONS + (q as u64);
    if rem > half || (rem == half && (rest || q % 2 == 1)) {
        proof {
            lemma_rounded(num, den, below + 1);
        }
        below + 1
    } else {
        proof {
            lemma_rounded(num, den, below as int);
        }
        below
    }
}

/// A positive number that is added to or taken from one that is much larger is
/// lost.
proof fn lemma_absorbs(significand: int, scale: nat, other: int, bits: int)
    requires
        FRACTIONS <= significand < 2 * FRACTIONS,
        65 <= scale <= 2045,
        bits == scale * FRACTIONS + significand,
        -pow2((scale - 12) as nat) < other < pow2((scale - 12) as nat),
    ensures
        rounds_to(units(bits) + other, 1, bits),
{
    let f = FRACTIONS as int;
    let s = pow2(scale) as int;
    lemma2_to64();
    lemma_pow2_adds(12, (scale - 12) as nat);
    lemma_pow2_adds(1, (scale - 1) as nat);
    lemma_units_at_scale(scale, significand);
    lemma_units_at_scale(scale, significand + 1);
    assert((significand + 1) * s == significand * s + s) by (nonlinear_arith);
    assert(0 < bits < INFINITY_BITS) by (nonlinear_arith)
        requires
            bits == scale * FRACTIONS + significand,
            0 < significand < 2 * FRACTIONS,
            0 <= scale <= 2045,
            FRACTIONS == 0x10_0000_0000_0000,
            INFINITY_BITS == 0x7ff0_0000_0000_0000,
    ;
    if significand > f {
        lemma_units_at_scale(scale, significand - 1);
        assert(scale * FRACTIONS + (significand - 1) == bits - 1);
        assert((significand - 1) * s == significand * s - s) by (nonlinear_arith);
    } else {
        let h = pow2((scale - 1) as nat) as int;
        lemma_units_at_scale((scale - 1) as nat, 2 * f - 1);
        assert((scale - 1) * f + (2 * f - 1) == bits - 1) by (nonlinear_arith)
            requires
                bits == scale * f + f,
        ;
        assert((2 * f - 1) * h == f * s - h) by (nonlinear_arith)
            requires
                s == 2 * h,
        ;
    }
}

impl Double {
    /// The number with the bit pattern `bits`.
    pub fn from_bits(bits: u64) -> (number: Double)
        ensures
            number.bits == bits,
    {
        Double { bits }
    }

    /// The bit pattern of the number.
    pub fn to_bits(&self) -> (bits: u64)
        ensures
            bits == self.bits,
    {
        self.bits
    }

    /// Significand and scale of a finite number.
    fn parts(&self) -> (parts: (u64, u64))
        requires
            self.is_finite(),
        ensures
            units(self.unsigned_bits()) == parts.0 * pow2(parts.1 as nat),
            self.unsigned_bits() == parts.1 * FRACTIONS + parts.0,
            parts.0 < 2 * FRACTIONS,
            parts.1 <= 2045,
            parts.1 > 0 ==> parts.0 >= FRACTIONS,
    {
        let unsigned: u64 = self.bits % SIGN_BIT;
        let exponent: u64 = unsigned / FRACTIONS;
        let fraction: u64 = unsigned % FRACTIONS;
        proof {
            lemma2_to64();
            if exponent == 0 {
                lemma_units_at_scale(0, fraction as int);
            }
        }
        if exponent == 0 {
            (fraction, 0)
        } else {
            (FRACTIONS + fraction, exponent - 1)
        }
    }

    /// Whether this is a NaN.
    fn not_a_number(&self) -> (r: bool)
        ensures
            r == self.is_nan(),
    {
        self.bits % SIGN_BIT > INFINITY_BITS
    }

    /// Whether this is an infinity.
    fn infinite(&self) -> (r: bool)
        ensures
            r == self.is_infinite(),
    {
        self.bits % SIGN_BIT == INFINITY_BITS
    }

    /// A number from its sign and its unsigned pattern.
    fn signed(negative: bool, unsigned: u64) -> (number: Double)
        requires
            unsigned < SIGN_BIT,
        ensures
            number.negative() == negative,
            number.unsigned_bits() == unsigned,
            number.bits == if negative {
                SIGN_BIT + unsigned
            } else {
                unsigned as int
            },
    {
        if negative {
            Double { bits: SIGN_BIT + unsigned }
        } else {
            Double { bits: unsigned }
        }
    }

    /// The whole number `n`.
    pub fn from_i32(n: i32) -> (number: Double)
        ensures
            number == Double::of_int(n as int),
    {
        let negative = n < 0;
        let size: u128 = if negative {
            (-(n as i64)) as u128
        } else {
            n as u128
        };
        let ghost num = size * one();
        proof {
            lemma2_to64();
            lemma_pow2_pos(1074);
            assert(num * pow2(0) == size * (pow2(1074) * 1)) by (nonlinear_arith)
                requires
                    num == size * one(),
                    pow2(0) == 1,
                    one() == pow2(1074),
            ;
            assert(n * one() == if negative {
                -num
            } else {
                num
            }) by (nonlinear_arith)
                requires
                    num == size * one(),
                    size == if negative {
                        -n
                    } else {
                        n as int
                    },
            ;
            assert(n < 0 <==> n * one() < 0) by (nonlinear_arith)
                requires
                    one() > 0,
            ;
        }
        let unsigned: u64 = round(size, false, 1074, 0, Ghost(num), Ghost(1));
        Double::signed(negative, unsigned)
    }

    /// The number with the other sign.
    pub fn neg(&self) -> (number: Double)
        ensures
            number == self.negated(),
    {
        if self.bits >= SIGN_BIT {
            Double { bits: self.bits - SIGN_BIT }
        } else {
            Double { bits: self.bits + SIGN_BIT }
        }
    }

    /// The number without its sign.
    pub fn abs(&self) -> (number: Double)
        ensures
            number == self.magnitude(),
    {
        Double { bits: self.bits % SIGN_BIT }
    }

    /// Whether both are numbers, and this one is the greater.
    pub fn is_greater(&self, other: &Double) -> (r: bool)
        ensures
            r == self.gt(*other),
    {
        if self.not_a_number() || other.not_a_number() {
            return false;
        }
        let mine: u64 = self.bits % SIGN_BIT;
        let theirs: u64 = other.bits % SIGN_BIT;
        proof {
            lemma_units_nonnegative(mine as int);
            lemma_units_nonnegative(theirs as int);
            lemma_units_zero(mine as int);
            lemma_units_zero(theirs as int);
            if mine < theirs {
                lemma_units_increase(mine as int, theirs as int);
            }
            if theirs < mine {
                lemma_units_increase(theirs as int, mine as int);
            }
        }
        if self.bits < SIGN_BIT {
            if other.bits < SIGN_BIT {
                mine > theirs
            } else {
                mine > 0 || theirs > 0
            }
        } else {
            other.bits >= SIGN_BIT && mine < theirs
        }
    }

    /// Whether both are numbers, and this one is not the smaller.
    pub fn is_at_least(&self, other: &Double) -> (r: bool)
        ensures
            r == self.ge(*other),
    {
        !self.not_a_number() && !other.not_a_number() && !other.is_greater(self)
    }

    /// The product.
    pub fn mul(&self, other: &Double) -> (product: Double)
        ensures
            product == self.times(*other),
    {
        if self.not_a_number() || other.not_a_number() {
            return Double { bits: NAN_BITS };
        }
        let negative = (self.bits >= SIGN_BIT) != (other.bits >= SIGN_BIT);
        let mine: u64 = self.bits % SIGN_BIT;
        let theirs: u64 = other.bits % SIGN_BIT;
        proof {
            lemma_units_nonnegative(mine as int);
            lemma_units_nonnegative(theirs as int);
            lemma_units_zero(mine as int);
            lemma_units_zero(theirs as int);
        }
        if self.infinite() || other.infinite() {
            if mine == 0 || theirs == 0 {
                return Double { bits: NAN_BITS };
            }
            return Double::signed(negative, INFINITY_BITS);
        }
        if mine == 0 || theirs == 0 {
            return Double::signed(negative, 0);
        }
        let (m1, s1) = self.parts();
        let (m2, s2) = other.parts();
        let ghost num = units(mine as int) * units(theirs as int);
        proof {
            lemma_pow2_pos(1074);
            assert(m1 * m2 < 0x20_0000_0000_0000 * 0x20_0000_0000_0000) by (nonlinear_arith)
                requires
                    0 <= m1 < 0x20_0000_0000_0000,
                    0 <= m2 < 0x20_0000_0000_0000,
            ;
            lemma_pow2_adds(s1 as nat, s2 as nat);
            assert(num * pow2(1074) == (m1 * m2) * (pow2((s1 + s2) as nat) * one()))
                by (nonlinear_arith)
                requires
                    num == (m1 * pow2(s1 as nat)) * (m2 * pow2(s2 as nat)),
                    pow2((s1 + s2) as nat) == pow2(s1 as nat) * pow2(s2 as nat),
                    one() == pow2(1074),
            ;
            assert(num > 0) by (nonlinear_arith)
                requires
                    num == units(mine as int) * units(theirs as int),
                    units(mine as int) > 0,
                    units(theirs as int) > 0,
            ;
            assert(self.value() * other.value() == if negative {
                -num
            } else {
                num
            }) by (nonlinear_arith)
                requires
                    num == units(mine as int) * units(theirs as int),
                    self.value() == if self.negative() {
                        -units(mine as int)
                    } else {
                        units(mine as int)
                    },
                    other.value() == if other.negative() {
                        -units(theirs as int)
                    } else {
                        units(theirs as int)
                    },
                    negative == (self.negative() != other.negative()),
            ;
        }
        let product: u128 = (m1 as u128) * (m2 as u128);
        let unsigned: u64 = round(product, false, s1 + s2, 1074, Ghost(num), Ghost(one()));
        Double::signed(negative, unsigned)
    }

    /// The sum of two finite numbers, of which this one has the greater scale.
    fn add_smaller(&self, other: &Double, m1: u64, s1: u64, m2: u64, s2: u64) -> (sum: Double)
        requires
            self.is_finite(),
            other.is_finite(),
            units(self.unsigned_bits()) == m1 * pow2(s1 as nat),
            self.unsigned_bits() == s1 * FRACTIONS + m1,
            m1 < 2 * FRACTIONS,
            s1 <= 2045,
            s1 > 0 ==> m1 >= FRACTIONS,
            units(other.unsigned_bits()) == m2 * pow2(s2 as nat),
            m2 < 2 * FRACTIONS,
            s2 <= s1,
        ensures
            sum == self.plus(*other),
    {
        let n1 = self.bits >= SIGN_BIT;
        let n2 = other.bits >= SIGN_BIT;
        let gap: u64 = s1 - s2;
        let ghost v1 = units(self.unsigned_bits());
        let ghost v2 = units(other.unsigned_bits());
        proof {
            lemma2_to64();
            lemma_units_nonnegative(self.unsigned_bits());
            lemma_units_nonnegative(other.unsigned_bits());
        }
        if gap > 64 {
            proof {
                lemma_pow2_adds(53, s2 as nat);
                lemma_pow2_pos(s2 as nat);
                lemma_mul_strict_inequality(m2 as int, 0x20_0000_0000_0000, pow2(s2 as nat) as int);
                lemma2_to64_rest();
                if s2 + 53 < s1 - 12 {
                    lemma_pow2_strictly_increases((s2 + 53) as nat, (s1 - 12) as nat);
                }
                let other_part = if n1 == n2 {
                    v2
                } else {
                    -v2
                };
                lemma_absorbs(m1 as int, s1 as nat, other_part, self.unsigned_bits());
                lemma_rounded(v1 + other_part, 1, self.unsigned_bits());
                lemma_units_increase(0, self.unsigned_bits());
                lemma_absorbed_sign(m1 as int, s1 as nat, v2);
            }
            return *self;
        }
        let factor: u128 = power_of_two(gap);
        let ghost step = pow2(s2 as nat) as int;
        proof {
            lemma_pow2_pos(s2 as nat);
            lemma_pow2_adds(gap as nat, s2 as nat);
            if gap < 64 {
                lemma_pow2_strictly_increases(gap as nat, 64);
            }
            assert(m1 * factor < 0x20_0000_0000_0000 * 0x2_0000_0000_0000_0000) by (nonlinear_arith)
                requires
                    0 <= m1 < 0x20_0000_0000_0000,
                    0 <= factor <= 0x1_0000_0000_0000_0000,
            ;
            assert(v1 == (m1 * factor) * step) by (nonlinear_arith)
                requires
                    v1 == m1 * pow2(s1 as nat),
                    pow2(s1 as nat) == factor * step,
            ;
        }
        let wide: u128 = (m1 as u128) * factor;
        let negative: bool;
        let size: u128;
        if n1 == n2 {
            negative = n1;
            size = wide + (m2 as u128);
        } else if wide >= m2 as u128 {
            negative = n1;
            size = wide - (m2 as u128);
        } else {
            negative = n2;
            size = (m2 as u128) - wide;
        }
        let ghost num = size * step;
        proof {
            assert(self.value() + other.value() == if negative {
                -num
            } else {
                num
            }) by (nonlinear_arith)
                requires
                    v1 == wide * step,
                    v2 == m2 * step,
                    num == size * step,
                    self.value() == if n1 {
                        -v1
                    } else {
                        v1
                    },
                    other.value() == if n2 {
                        -v2
                    } else {
                        v2
                    },
                    n1 == n2 ==> negative == n1 && size == wide + m2,
                    n1 != n2 && wide >= m2 ==> negative == n1 && size == wide - m2,
                    n1 != n2 && wide < m2 ==> negative == n2 && size == m2 - wide,
            ;
            assert(num >= 0 && (num == 0 <==> size == 0)) by (nonlinear_arith)
                requires
                    num == size * step,
                    size >= 0,
                    step > 0,
            ;
            assert(num * pow2(0) == size * (step * 1)) by (nonlinear_arith)
                requires
                    num == size * step,
                    pow2(0) == 1,
            ;
        }
        if size == 0 {
            return Double::signed(n1 && n2, 0);
        }
        let unsigned: u64 = round(size, false, s2, 0, Ghost(num), Ghost(1));
        Double::signed(negative, unsigned)
    }

    /// The sum.
    pub fn add(&self, other: &Double) -> (sum: Double)
        ensures
            sum == self.plus(*other),
    {
        if self.not_a_number() || other.not_a_number() {
            return Double { bits: NAN_BITS };
        }
        if self.infinite() {
            if other.infinite() && (self.bits >= SIGN_BIT) != (other.bits >= SIGN_BIT) {
                return Double { bits: NAN_BITS };
            }
            return *self;
        }
        if other.infinite() {
            return *other;
        }
        let (m1, s1) = self.parts();
        let (m2, s2) = other.parts();
        if s1 >= s2 {
            self.add_smaller(other, m1, s1, m2, s2)
        } else {
            other.add_smaller(self, m2, s2, m1, s1)
        }
    }

    /// The difference.
    pub fn sub(&self, other: &Double) -> (difference: Double)
        ensures
            difference == self.minus(*other),
    {
        self.add(&other.neg())
    }

    /// The quotient.
    pub fn div(&self, other: &Double) -> (quotient: Double)
        ensures
            quotient == self.over(*other),
    {
        if self.not_a_number() || other.not_a_number() {
            return Double { bits: NAN_BITS };
        }
        let negative = (self.bits >= SIGN_BIT) != (other.bits >= SIGN_BIT);
        let mine: u64 = self.bits % SIGN_BIT;
        let theirs: u64 = other.bits % SIGN_BIT;
        let ghost v1 = units(mine as int);
        let ghost v2 = units(theirs as int);
        proof {
            lemma_units_nonnegative(mine as int);
            lemma_units_nonnegative(theirs as int);
            lemma_units_zero(mine as int);
            lemma_units_zero(theirs as int);
        }
        if self.infinite() {
            if other.infinite() {
                return Double { bits: NAN_BITS };
            }
            return Double::signed(negative, INFINITY_BITS);
        }
        if other.infinite() {
            return Double::signed(negative, 0);
        }
        if theirs == 0 {
            if mine == 0 {
                return Double { bits: NAN_BITS };
            }
            return Double::signed(negative, INFINITY_BITS);
        }
        if mine == 0 {
            return Double::signed(negative, 0);
        }
        let (m1, s1) = self.parts();
        let (m2, s2) = other.parts();
        proof {
            lemma_pow2_pos(s1 as nat);
            lemma_pow2_pos(s2 as nat);
            lemma_pow2_pos(1074);
            assert(m1 > 0) by (nonlinear_arith)
                requires
                    m1 * pow2(s1 as nat) > 0,
                    m1 >= 0,
            ;
            assert(m2 > 0) by (nonlinear_arith)
                requires
                    m2 * pow2(s2 as nat) > 0,
                    m2 >= 0,
            ;
            lemma2_to64();
            lemma2_to64_rest();
        }
        let length: u64 = bit_length(m1 as u128);
        proof {
            if length > 53 {
                if length > 54 {
                    lemma_pow2_strictly_increases(53, (length - 1) as nat);
                }
            }
        }
        let shift: u64 = 120 - length;
        let factor: u128 = power_of_two(shift);
        proof {
            lemma_pow2_adds(length as nat, shift as nat);
            lemma_pow2_adds((length - 1) as nat, shift as nat);
            lemma_pow2_adds(56, 64);
            lemma_pow2_adds(55, 64);
            lemma_mul_strict_inequality(m1 as int, pow2(length as nat) as int, factor as int);
            lemma_mul_inequality(pow2((length - 1) as nat) as int, m1 as int, factor as int);
        }
        let dividend: u128 = (m1 as u128) * factor;
        let quotient: u128 = dividend / (m2 as u128);
        let remainder: u128 = dividend % (m2 as u128);
        let ghost num = v1 * one();
        let up: u64 = s1 + 1074;
        let down: u64 = s2 + shift;
        proof {
            assert(dividend == quotient * m2 + remainder) by (nonlinear_arith)
                requires
                    quotient == dividend / (m2 as u128),
                    remainder == dividend % (m2 as u128),
                    m2 > 0,
            ;
            assert(quotient >= 0x80_0000_0000_0000) by (nonlinear_arith)
                requires
                    dividend == quotient * m2 + remainder,
                    remainder < m2,
                    0 < m2 < 0x20_0000_0000_0000,
                    dividend >= 0x80_0000_0000_0000 * 0x1_0000_0000_0000_0000,
            ;
            assert(quotient <= dividend) by (nonlinear_arith)
                requires
                    dividend == quotient * m2 + remainder,
                    m2 >= 1,
                    remainder >= 0,
                    quotient >= 0,
            ;
            lemma_pow2_adds(s1 as nat, 1074);
            lemma_pow2_adds(s2 as nat, shift as nat);
            let lift = (pow2(up as nat) * pow2(s2 as nat)) as int;
            lemma_pow2_pos(up as nat);
            assert(lift > 0) by (nonlinear_arith)
                requires
                    lift == pow2(up as nat) * pow2(s2 as nat),
                    pow2(up as nat) > 0,
                    pow2(s2 as nat) > 0,
            ;
            assert(num * pow2(down as nat) == dividend * lift) by (nonlinear_arith)
                requires
                    num == (m1 * pow2(s1 as nat)) * pow2(1074),
                    pow2(up as nat) == pow2(s1 as nat) * pow2(1074),
                    pow2(down as nat) == pow2(s2 as nat) * factor,
                    dividend == m1 * factor,
                    lift == pow2(up as nat) * pow2(s2 as nat),
            ;
            assert(quotient * (pow2(up as nat) * v2) == (quotient * m2) * lift) by (nonlinear_arith)
                requires
                    v2 == m2 * pow2(s2 as nat),
                    lift == pow2(up as nat) * pow2(s2 as nat),
            ;
            assert((quotient + 1) * (pow2(up as nat) * v2) == (quotient * m2 + m2) * lift)
                by (nonlinear_arith)
                requires
                    v2 == m2 * pow2(s2 as nat),
                    lift == pow2(up as nat) * pow2(s2 as nat),
            ;
            lemma_scaled_order(quotient * m2, dividend as int, lift);
            lemma_scaled_order(dividend as int, quotient * m2 + m2, lift);
            assert(num > 0) by (nonlinear_arith)
                requires
                    num == v1 * one(),
                    v1 > 0,
                    one() > 0,
            ;
            assert(self.value() * one() == if self.negative() {
                -num
            } else {
                num
            }) by (nonlinear_arith)
                requires
                    num == v1 * one(),
                    self.value() == if self.negative() {
                        -v1
                    } else {
                        v1
                    },
            ;
            assert((-self.value()) * one() == -(self.value() * one())) by (nonlinear_arith);
        }
        let unsigned: u64 = round(quotient, remainder != 0, up, down, Ghost(num), Ghost(v2));
        Double::signed(negative, unsigned)
    }
}

/// A number with a large scale outweighs one with a small scale.
proof fn lemma_absorbed_sign(significand: int, scale: nat, other: int)
    requires
        significand >= FRACTIONS,
        scale >= 12,
        0 <= other < pow2((scale - 12) as nat),
    ensures
        significand * pow2(scale) > other,
{
    lemma2_to64();
    lemma_pow2_adds(12, (scale - 12) as nat);
    lemma_pow2_pos(scale);
    assert(significand * pow2(scale) >= pow2(scale)) by (nonlinear_arith)
        requires
            significand >= 1,
            pow2(scale) > 0,
    ;
}

/// Every number has a nearest pattern.
pub proof fn lemma_rounding_exists(num: int, den: int)
    requires
        num >= 0,
        den > 0,
    ensures
        rounds_to(num, den, rounded(num, den)),
{
    lemma_units_zero(0);
    let floor = lemma_floor(num, den, 0);
    lemma_floor_or_next(num, den, floor);
}

/// Twice the number of a pattern lies between the middles around it.
proof fn lemma_between_middles(bits: int, den: int)
    requires
        bits >= 0,
        den > 0,
    ensures
        2 * (units(bits) * den) < twice_middle(bits) * den,
        bits > 0 ==> twice_middle(bits - 1) * den < 2 * (units(bits) * den),
{
    let n = units(bits);
    let above = units(bits + 1);
    lemma_units_increase(bits, bits + 1);
    assert(2 * (n * den) < (n + above) * den) by (nonlinear_arith)
        requires
            n < above,
            den > 0,
    ;
    if bits > 0 {
        let below = units(bits - 1);
        lemma_units_increase(bits - 1, bits);
        assert((below + n) * den < 2 * (n * den)) by (nonlinear_arith)
            requires
                below < n,
                den > 0,
        ;
    }
}

/// The pattern below a number, or the next one, is the nearest.
#[verifier::spinoff_prover]
proof fn lemma_floor_or_next(num: int, den: int, floor: int)
    requires
        den > 0,
        0 <= floor <= INFINITY_BITS,
        units(floor) * den <= num,
        floor < INFINITY_BITS ==> num < units(floor + 1) * den,
    ensures
        rounds_to(num, den, floor) || rounds_to(num, den, floor + 1),
{
    lemma_between_middles(floor, den);
    lemma_between_middles(floor + 1, den);
}

/// The last pattern whose number is not above `num / den` units.
proof fn lemma_floor(num: int, den: int, bits: int) -> (floor: int)
    requires
        0 <= bits <= INFINITY_BITS,
        units(bits) * den <= num,
    ensures
        0 <= floor <= INFINITY_BITS,
        units(floor) * den <= num,
        floor < INFINITY_BITS ==> num < units(floor + 1) * den,
    decreases INFINITY_BITS - bits,
{
    if bits < INFINITY_BITS && units(bits + 1) * den <= num {
        lemma_floor(num, den, bits + 1)
    } else {
        bits
    }
}

/// Rounding keeps the order of numbers.
pub proof fn lemma_rounding_is_monotone(low: int, high: int, den: int)
    requires
        0 <= low <= high,
        den > 0,
    ensures
        0 <= rounded(low, den) <= rounded(high, den) <= INFINITY_BITS,
{
    lemma_rounding_exists(low, den);
    lemma_rounding_exists(high, den);
    let a = rounded(low, den);
    let b = rounded(high, den);
    if b < a {
        if b < a - 1 {
            lemma_units_increase(b, a - 1);
            lemma_units_increase(b + 1, a);
            lemma_mul_strict_inequality(twice_middle(b), twice_middle(a - 1), den);
        }
    }
}

/// A significand that fits, at a scale, has a pattern.
pub proof fn lemma_pattern_exists(significand: int, scale: nat) -> (bits: int)
    requires
        0 <= significand < 2 * FRACTIONS,
        scale <= 2045,
    ensures
        0 <= bits < INFINITY_BITS,
        units(bits) == significand * pow2(scale),
    decreases scale,
{
    if significand >= FRACTIONS || scale == 0 {
        lemma_units_at_scale(scale, significand);
        let bits = scale * FRACTIONS + significand;
        assert(0 <= bits < INFINITY_BITS) by (nonlinear_arith)
            requires
                bits == scale * FRACTIONS + significand,
                0 <= significand < 2 * FRACTIONS,
                0 <= scale <= 2045,
                FRACTIONS == 0x10_0000_0000_0000,
                INFINITY_BITS == 0x7ff0_0000_0000_0000,
        ;
        bits
    } else {
        lemma2_to64();
        lemma_pow2_adds(1, (scale - 1) as nat);
        assert((2 * significand) * pow2((scale - 1) as nat) == significand * pow2(scale))
            by (nonlinear_arith)
            requires
                pow2(scale) == 2 * pow2((scale - 1) as nat),
        ;
        lemma_pattern_exists(2 * significand, (scale - 1) as nat)
    }
}

/// The nearest number to one that is not zero has its sign, and the pattern that
/// the size rounds to.
pub proof fn lemma_nearest(num: int)
    requires
        num != 0,
    ensures
        !nearest(num, 1).is_nan(),
        nearest(num, 1).negative() == (num < 0),
        nearest(num, 1).unsigned_bits() == rounded(if num < 0 { -num } else { num }, 1),
        num > 0 ==> nearest(num, 1).value() > 0,
        num < 0 ==> nearest(num, 1).value() < 0,
{
    let size = if num < 0 {
        -num
    } else {
        num
    };
    lemma_rounding_exists(size, 1);
    let bits = rounded(size, 1);
    lemma_units_at_scale(0, 0);
    lemma_units_at_scale(0, 1);
    lemma2_to64();
    assert(twice_middle(0) == 1);
    assert(bits > 0);
    lemma_units_increase(0, bits);
}

/// A number that has a pattern is its own nearest number.
pub proof fn lemma_nearest_is_exact(num: int, bits: int)
    requires
        0 <= bits < INFINITY_BITS,
        units(bits) == if num < 0 {
            -num
        } else {
            num
        },
    ensures
        nearest(num, 1).is_finite(),
        nearest(num, 1).value() == num,
{
    lemma_exact_rounds_to_itself(1, bits);
}

/// Whole numbers of moderate size have patterns.
pub proof fn lemma_of_int(n: int)
    requires
        -0x20_0000_0000_0000 < n < 0x20_0000_0000_0000,
    ensures
        Double::of_int(n).is_finite(),
        Double::of_int(n).value() == n * one(),
{
    let size = if n < 0 {
        -n
    } else {
        n
    };
    let bits = lemma_pattern_exists(size, 1074);
    lemma_pow2_pos(1074);
    assert(n * one() == if n < 0 {
        -(size * one())
    } else {
        size * one()
    }) by (nonlinear_arith)
        requires
            size == if n < 0 {
                -n
            } else {
                n
            },
    ;
    assert(size * one() >= 0) by (nonlinear_arith)
        requires
            size >= 0,
            one() > 0,
    ;
    lemma_nearest_is_exact(n * one(), bits);
}

/// The other sign gives the other value.
pub proof fn lemma_negated(x: Double)
    ensures
        x.negated().unsigned_bits() == x.unsigned_bits(),
        x.negated().negative() == !x.negative(),
        x.negated().value() == -x.value(),
{
}

/// The size of a rounded difference of finite numbers is the size of the exact
/// one, rounded.
pub proof fn lemma_minus_magnitude(a: Double, b: Double)
    requires
        a.is_finite(),
        b.is_finite(),
    ensures
        ({
            let difference = a.value() - b.value();
            let size = if difference < 0 {
                -difference
            } else {
                difference
            };
            &&& !a.minus(b).is_nan()
            &&& a.minus(b).magnitude().bits == rounded(size, 1)
            &&& 0 <= rounded(size, 1) <= INFINITY_BITS
        }),
{
    lemma_negated(b);
    lemma_units_zero(0);
    let difference = a.value() - b.value();
    if difference != 0 {
        lemma_nearest(difference);
        let size = if difference < 0 {
            -difference
        } else {
            difference
        };
        lemma_rounding_exists(size, 1);
    } else {
        lemma_exact_rounds_to_itself(1, 0);
    }
}

/// Whether two results stand for the same number, or neither stands for one.
pub open spec fn alike(a: Double, b: Double) -> bool {
    if a.is_nan() {
        b.is_nan()
    } else {
        !b.is_nan() && a.value() == b.value()
    }
}

/// Whether two results stand for numbers that differ in sign alone, or neither
/// stands for one.
pub open spec fn opposite(a: Double, b: Double) -> bool {
    if a.is_nan() {
        b.is_nan()
    } else {
        !b.is_nan() && a.value() == -b.value()
    }
}

/// Numbers of one size have one pattern, the sign aside.
pub proof fn lemma_size_decides(a: Double, b: Double)
    requires
        a.value() == b.value() || a.value() == -b.value(),
    ensures
        a.unsigned_bits() == b.unsigned_bits(),
        a.value() == 0 <==> a.unsigned_bits() == 0,
        a.value() < 0 ==> a.negative(),
        a.value() > 0 ==> !a.negative(),
        b.value() < 0 ==> b.negative(),
        b.value() > 0 ==> !b.negative(),
{
    let x = a.unsigned_bits();
    let y = b.unsigned_bits();
    lemma_units_nonnegative(x);
    lemma_units_nonnegative(y);
    lemma_units_zero(x);
    if x < y {
        lemma_units_increase(x, y);
    }
    if y < x {
        lemma_units_increase(y, x);
    }
}

/// Rounding treats both signs alike.
pub proof fn lemma_nearest_of_opposite(num: int, den: int)
    requires
        den > 0,
        num != 0,
    ensures
        opposite(nearest(num, den), nearest(-num, den)),
        !nearest(num, den).is_nan(),
{
    lemma_rounding_exists(if num < 0 { -num } else { num }, den);
    lemma_units_zero(0);
}

/// A difference the other way round is the opposite.
pub proof fn lemma_minus_turned(a: Double, b: Double)
    ensures
        opposite(a.minus(b), b.minus(a)),
{
    lemma_negated(a);
    lemma_negated(b);
    lemma_units_zero(0);
    let difference = a.value() - b.value();
    if difference != 0 {
        lemma_nearest_of_opposite(difference, 1);
    }
}

/// Differences of opposite numbers are opposite.
pub proof fn lemma_minus_of_opposites(a: Double, b: Double, a2: Double, b2: Double)
    requires
        opposite(a, a2),
        opposite(b, b2),
    ensures
        opposite(a.minus(b), a2.minus(b2)),
{
    lemma_negated(b);
    lemma_negated(b2);
    lemma_units_zero(0);
    lemma_units_zero(INFINITY_BITS as int);
    if !a.is_nan() && !b.is_nan() {
        lemma_size_decides(a, a2);
        lemma_size_decides(b, b2);
        let difference = a.value() - b.value();
        if difference != 0 {
            lemma_nearest_of_opposite(difference, 1);
        }
    }
}

/// The order of the factors does not matter.
pub proof fn lemma_times_commutes(a: Double, b: Double)
    ensures
        a.times(b) == b.times(a),
{
    lemma_mul_is_commutative(a.value(), b.value());
}

/// An opposite factor gives the opposite product.
pub proof fn lemma_times_opposite(a: Double, b: Double, a2: Double)
    requires
        opposite(a, a2),
    ensures
        opposite(a.times(b), a2.times(b)),
{
    if !a.is_nan() && !b.is_nan() {
        lemma_size_decides(a, a2);
        lemma_size_decides(b, b);
        let x = a.value();
        let y = b.value();
        if x == 0 || y == 0 {
            lemma_units_zero(0);
        } else if a.is_infinite() || b.is_infinite() {
            assert(a.times(b) == Double::infinity(a.negative() != b.negative()));
            assert(a2.times(b) == Double::infinity(a2.negative() != b.negative()));
        } else {
            lemma_opposite_products(x, y);
            lemma_pow2_pos(1074);
            lemma_nearest_of_opposite(x * y, one());
            assert(a.times(b) == nearest(x * y, one()));
            assert(a2.times(b) == nearest(-(x * y), one()));
        }
    }
}

/// Products of numbers of opposite signs.
proof fn lemma_opposite_products(x: int, y: int)
    requires
        x != 0,
        y != 0,
    ensures
        x * y != 0,
        (-x) * y == -(x * y),
{
    assert(x * y != 0) by (nonlinear_arith)
        requires
            x != 0,
            y != 0,
    ;
    assert((-x) * y == -(x * y)) by (nonlinear_arith);
}

/// Opposite numbers have one quotient.
pub proof fn lemma_over_of_opposites(a: Double, b: Double, a2: Double, b2: Double)
    requires
        opposite(a, a2),
        opposite(b, b2),
        b.value() != 0,
    ensures
        alike(a.over(b), a2.over(b2)),
{
    lemma_units_zero(0);
    lemma_units_zero(INFINITY_BITS as int);
    if !a.is_nan() && !b.is_nan() {
        lemma_size_decides(a, a2);
        lemma_size_decides(b, b2);
    }
}

/// The size of a number.
pub open spec fn size_of_int(n: int) -> int {
    if n < 0 {
        -n
    } else {
        n
    }
}

/// No pattern is nearer to a number than the one that the number rounds to.
proof fn lemma_nothing_is_nearer(num: int, den: int, bits: int, other: int)
    requires
        den > 0,
        num >= 0,
        rounds_to(num, den, bits),
        bits < INFINITY_BITS,
        0 <= other < INFINITY_BITS,
    ensures
        size_of_int(units(bits) * den - num) <= size_of_int(units(other) * den - num),
        size_of_int(units(bits) * den - num) <= num,
{
    lemma_units_nonnegative(other);
    lemma_units_nonnegative(bits);
    lemma_units_zero(0);
    lemma_not_nearer_from(num, den, bits, other);
    lemma_not_nearer_from(num, den, bits, 0);
    assert(0 * den == 0);
}

/// The same, of a number that need not be positive.
proof fn lemma_not_nearer_from(num: int, den: int, bits: int, other: int)
    requires
        den > 0,
        rounds_to(num, den, bits),
        bits < INFINITY_BITS,
        0 <= other < INFINITY_BITS,
    ensures
        size_of_int(units(bits) * den - num) <= size_of_int(units(other) * den - num),
{
    let b = units(bits);
    let o = units(other);
    if other < bits {
        let below = units(bits - 1);
        if other < bits - 1 {
            lemma_units_increase(other, bits - 1);
        }
        lemma_units_increase(bits - 1, bits);
        assert(o * den <= below * den && below * den < b * den) by (nonlinear_arith)
            requires
                o <= below < b,
                den > 0,
        ;
        assert((below + b) * den == below * den + b * den) by (nonlinear_arith);
    } else if other > bits {
        let above = units(bits + 1);
        if bits + 1 < other {
            lemma_units_increase(bits + 1, other);
        }
        lemma_units_increase(bits, bits + 1);
        assert(b * den < above * den && above * den <= o * den) by (nonlinear_arith)
            requires
                b < above <= o,
                den > 0,
        ;
        assert((b + above) * den == b * den + above * den) by (nonlinear_arith);
    }
}

/// No finite number is nearer to `num / den` units than the nearest one.
proof fn lemma_nearest_is_nearest(num: int, den: int, other: Double)
    requires
        den > 0,
        num != 0,
        nearest(num, den).is_finite(),
        other.is_finite(),
    ensures
        size_of_int(nearest(num, den).value() * den - num) <= size_of_int(
            other.value() * den - num,
        ),
{
    let size = size_of_int(num);
    lemma_rounding_exists(size, den);
    let bits = rounded(size, den);
    let r = nearest(num, den);
    assert(r.unsigned_bits() == bits);
    let o = other.unsigned_bits();
    lemma_nothing_is_nearer(size, den, bits, o);
    lemma_units_nonnegative(o);
    let b = units(bits);
    let c = units(o);
    assert((-b) * den == -(b * den) && (-c) * den == -(c * den) && c * den >= 0)
        by (nonlinear_arith)
        requires
            c >= 0,
            den > 0,
    ;
}

/// A finite sum is the nearest number to the exact sum: no other is nearer.
pub proof fn law_sum_is_nearest(a: Double, b: Double, other: Double)
    requires
        a.is_finite(),
        b.is_finite(),
        a.plus(b).is_finite(),
        other.is_finite(),
    ensures
        size_of_int(a.plus(b).value() - (a.value() + b.value())) <= size_of_int(
            other.value() - (a.value() + b.value()),
        ),
{
    lemma_units_zero(0);
    let sum = a.value() + b.value();
    if sum != 0 {
        lemma_nearest_is_nearest(sum, 1, other);
    }
}

/// A finite difference is the nearest number to the exact difference.
pub proof fn law_difference_is_nearest(a: Double, b: Double, other: Double)
    requires
        a.is_finite(),
        b.is_finite(),
        a.minus(b).is_finite(),
        other.is_finite(),
    ensures
        size_of_int(a.minus(b).value() - (a.value() - b.value())) <= size_of_int(
            other.value() - (a.value() - b.value()),
        ),
{
    lemma_negated(b);
    law_sum_is_nearest(a, b.negated(), other);
}

/// A finite product is the nearest number to the exact product.
pub proof fn law_product_is_nearest(a: Double, b: Double, other: Double)
    requires
        a.is_finite(),
        b.is_finite(),
        a.times(b).is_finite(),
        other.is_finite(),
    ensures
        size_of_int(a.times(b).value() * one() - a.value() * b.value()) <= size_of_int(
            other.value() * one() - a.value() * b.value(),
        ),
{
    lemma_units_zero(0);
    lemma_pow2_pos(1074);
    let (x, y) = (a.value(), b.value());
    if x != 0 && y != 0 {
        assert(x * y != 0) by (nonlinear_arith)
            requires
                x != 0,
                y != 0,
        ;
        lemma_nearest_is_nearest(x * y, one(), other);
    } else {
        assert(x * y == 0) by (nonlinear_arith)
            requires
                x == 0 || y == 0,
        ;
        assert(a.times(b).value() == 0);
        assert(0 * one() == 0);
    }
}

/// A finite quotient is the nearest number to the exact quotient.
pub proof fn law_quotient_is_nearest(a: Double, b: Double, other: Double)
    requires
        a.is_finite(),
        b.is_finite(),
        b.value() != 0,
        a.over(b).is_finite(),
        other.is_finite(),
    ensures
        size_of_int(a.over(b).value() * b.value() - a.value() * one()) <= size_of_int(
            other.value() * b.value() - a.value() * one(),
        ),
{
    lemma_units_zero(0);
    lemma_pow2_pos(1074);
    let (x, y) = (a.value(), b.value());
    let r = a.over(b).value();
    let c = other.value();
    if x == 0 {
        assert(r == 0);
        assert(0 * y == 0 && 0 * one() == 0) by (nonlinear_arith);
    } else {
        assert(x * one() != 0) by (nonlinear_arith)
            requires
                x != 0,
                one() > 0,
        ;
        if y > 0 {
            lemma_nearest_is_nearest(x * one(), y, other);
        } else {
            assert((-x) * one() == -(x * one())) by (nonlinear_arith);
            lemma_nearest_is_nearest((-x) * one(), -y, other);
            assert(r * (-y) == -(r * y) && c * (-y) == -(c * y)) by (nonlinear_arith);
        }
    }
}

/// Numbers are compared by their values, and what is no number compares with
/// nothing.
pub proof fn law_order_is_by_value(a: Double, b: Double)
    ensures
        !a.is_nan() && !b.is_nan() ==> (a.gt(b) <==> a.value() > b.value()),
        !a.is_nan() && !b.is_nan() ==> (a.ge(b) <==> a.value() >= b.value()),
        a.is_nan() || b.is_nan() ==> !a.gt(b) && !a.ge(b),
{
}

/// The other sign gives the opposite value, and no sign the size.
pub proof fn law_signs(a: Double)
    ensures
        a.negated().value() == -a.value(),
        a.magnitude().value() == size_of_int(a.value()),
        a.negated().is_nan() == a.is_nan(),
        a.magnitude().is_nan() == a.is_nan(),
        a.negated().negated() == a,
{
    lemma_negated(a);
    lemma_units_nonnegative(a.unsigned_bits());
}

/// Whole numbers of moderate size are exact, and so are their sums.
pub proof fn law_whole_sums_are_exact(m: int, n: int)
    requires
        -0x10_0000_0000_0000 < m < 0x10_0000_0000_0000,
        -0x10_0000_0000_0000 < n < 0x10_0000_0000_0000,
    ensures
        Double::of_int(m).is_finite(),
        Double::of_int(m).value() == m * one(),
        Double::of_int(m).plus(Double::of_int(n)).value() == (m + n) * one(),
        Double::of_int(m).minus(Double::of_int(n)).value() == (m - n) * one(),
        Double::of_int(m).plus(Double::of_int(n)) == Double::of_int(m + n),
{
    lemma_exact_rounds_to_itself(1, 0);
    lemma_of_int(m);
    lemma_of_int(n);
    lemma_of_int(m + n);
    lemma_of_int(m - n);
    lemma_negated(Double::of_int(n));
    lemma_units_zero(0);
    lemma_pow2_pos(1074);
    assert((m + n) * one() == m * one() + n * one()) by (nonlinear_arith);
    assert((m - n) * one() == m * one() - n * one()) by (nonlinear_arith);
    assert(m + n != 0 ==> (m + n) * one() != 0) by (nonlinear_arith)
        requires
            one() > 0,
    ;
}

/// A sum lies on the side of the first number to which the second one leads.
pub proof fn law_sum_keeps_direction(a: Double, b: Double)
    requires
        a.is_finite(),
        b.is_finite(),
    ensures
        !a.plus(b).is_nan(),
        b.value() >= 0 ==> a.plus(b).value() >= a.value(),
        b.value() <= 0 ==> a.plus(b).value() <= a.value(),
{
    lemma_units_zero(0);
    let sum = a.value() + b.value();
    let size = size_of_int(sum);
    let bits = a.unsigned_bits();
    lemma_units_nonnegative(bits);
    if sum != 0 {
        lemma_nearest(sum);
        lemma_rounding_exists(size, 1);
        let r = rounded(size, 1);
        lemma_units_nonnegative(r);
        lemma_exact_rounds_to_itself(1, bits);
        if (a.value() >= 0) == (sum > 0) || a.value() == 0 {
            if size >= units(bits) {
                lemma_rounding_is_monotone(units(bits), size, 1);
                if bits < r {
                    lemma_units_increase(bits, r);
                }
            } else {
                lemma_rounding_is_monotone(size, units(bits), 1);
                if r < bits {
                    lemma_units_increase(r, bits);
                }
            }
        }
    }
}

/// What is not above the greatest finite number rounds to a finite one.
proof fn lemma_fits(num: int, den: int)
    requires
        den > 0,
        num != 0,
        size_of_int(num) <= units(INFINITY_BITS - 1) * den,
    ensures
        nearest(num, den).is_finite(),
{
    lemma_exact_rounds_to_itself(den, INFINITY_BITS - 1);
    lemma_rounding_is_monotone(size_of_int(num), units(INFINITY_BITS - 1) * den, den);
}

/// Sums, differences, products and quotients of finite numbers are numbers, and
/// finite ones where the exact result is not above the greatest finite number.
pub proof fn law_results_are_finite(a: Double, b: Double)
    requires
        a.is_finite(),
        b.is_finite(),
    ensures
        ({
            let most = units(INFINITY_BITS - 1);
            let (x, y) = (a.value(), b.value());
            &&& size_of_int(x + y) <= most ==> a.plus(b).is_finite()
            &&& size_of_int(x - y) <= most ==> a.minus(b).is_finite()
            &&& size_of_int(x * y) <= most * one() ==> a.times(b).is_finite()
            &&& y != 0 && size_of_int(x * one()) <= most * size_of_int(y) ==> a.over(b).is_finite()
        }),
{
    let most = units(INFINITY_BITS - 1);
    let (x, y) = (a.value(), b.value());
    lemma_negated(b);
    lemma_pow2_pos(1074);
    lemma_units_zero(0);
    if x + y != 0 && size_of_int(x + y) <= most {
        lemma_fits(x + y, 1);
    }
    if x - y != 0 && size_of_int(x - y) <= most {
        lemma_fits(x - y, 1);
    }
    if x != 0 && y != 0 {
        assert(x * y != 0 && x * one() != 0) by (nonlinear_arith)
            requires
                x != 0,
                y != 0,
                one() > 0,
        ;
        if size_of_int(x * y) <= most * one() {
            lemma_fits(x * y, one());
        }
        if size_of_int(x * one()) <= most * size_of_int(y) {
            assert((-x) * one() == -(x * one())) by (nonlinear_arith);
            if y > 0 {
                lemma_fits(x * one(), y);
            } else {
                lemma_fits((-x) * one(), -y);
            }
        }
    }
}

} // verus!
