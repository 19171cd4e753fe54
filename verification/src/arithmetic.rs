//! The arithmetic of binary64 numbers, done on their bit patterns.
//!
//! Each operation is the exact operation on the values followed by one
//! rounding to the nearest number, ties to the even significand, as
//! IEEE 754 asks by default. Every NaN result is the quiet NaN with no
//! payload and a clear sign bit.

use vstd::prelude::*;
use vstd::arithmetic::power2::{
    lemma2_to64,
    lemma2_to64_rest,
    lemma_pow2_adds,
    lemma_pow2_pos,
    lemma_pow2_unfold,
    pow2,
};
use vstd::arithmetic::div_mod::{lemma_fundamental_div_mod, lemma_fundamental_div_mod_converse};
use crate::binary64::{Binary64, INFINITY_BITS, SIGN_BIT};
use crate::rounding::{
    bit_length,
    encode,
    lemma_bit_length_at_most,
    lemma_bit_length_bounds,
    lemma_bit_length_scaled,
    lemma_bit_length_unique,
    lemma_encode_scaled,
    lemma_nearest_exact,
    lemma_nearest_normalized,
    lemma_pow2_increases,
    lemma_round_common_factor,
    lemma_round_multiple,
    nearest,
    overflow_threshold,
    round_half_even,
};

verus! {

/// The leading bit of a normal significand: 2^52.
pub const HIDDEN_BIT: u64 = 0x0010_0000_0000_0000;

/// The pattern of the quiet NaN that operations give.
pub const QUIET_NAN_BITS: u64 = 0x7ff8_0000_0000_0000;

/// The largest difference of unit exponents at which two numbers are
/// added digit by digit; beyond it the smaller is less than a quarter of
/// the larger one's unit.
pub const ALIGN_LIMIT: u64 = 60;

/// What `round_scaled` takes as a significand stays below this: 2^116.
pub const WIDE_LIMIT: u128 = 0x10_0000_0000_0000_0000_0000_0000_0000;

impl Binary64 {
    /// The exponent bits of the pattern, as a number.
    pub open spec fn exponent_field(self) -> nat {
        (self.magnitude_bits() / HIDDEN_BIT) as nat
    }

    /// The fraction bits of the pattern, as a number.
    pub open spec fn fraction_field(self) -> nat {
        (self.magnitude_bits() % HIDDEN_BIT) as nat
    }

    /// The significand of a finite number: the fraction, with the leading
    /// bit added where the number is normal.
    pub open spec fn significand(self) -> nat {
        if self.exponent_field() == 0 {
            self.fraction_field()
        } else {
            HIDDEN_BIT as nat + self.fraction_field()
        }
    }

    /// The exponent of the unit in which the significand of a finite
    /// number counts, the smallest positive number being unit 0.
    pub open spec fn unit_exponent(self) -> nat {
        if self.exponent_field() == 0 {
            0
        } else {
            (self.exponent_field() - 1) as nat
        }
    }

    /// The absolute value of a finite number, in units of the smallest
    /// positive number (2^-1074).
    pub open spec fn magnitude(self) -> nat {
        self.significand() * pow2(self.unit_exponent())
    }

    /// The value of a finite number, in units of the smallest positive
    /// number.
    pub open spec fn value(self) -> int {
        if self.sign_negative() {
            -(self.magnitude() as int)
        } else {
            self.magnitude() as int
        }
    }
}

/// The number with the given sign and magnitude; infinity where the
/// magnitude is too large to be finite.
pub open spec fn from_magnitude(negative: bool, magnitude: nat) -> Binary64 {
    let pattern = if magnitude >= overflow_threshold() {
        INFINITY_BITS as nat
    } else {
        encode(magnitude)
    };
    Binary64 {
        bits: (if negative {
            SIGN_BIT + pattern
        } else {
            pattern as int
        }) as u64,
    }
}

/// The NaN that operations give.
pub open spec fn quiet_nan() -> Binary64 {
    Binary64 { bits: QUIET_NAN_BITS }
}

/// Zero with the given sign.
pub open spec fn signed_zero(negative: bool) -> Binary64 {
    Binary64 {
        bits: if negative {
            SIGN_BIT
        } else {
            0
        },
    }
}

/// The number with the opposite sign.
pub open spec fn negation_of(a: Binary64) -> Binary64 {
    Binary64 {
        bits: if a.bits >= SIGN_BIT {
            (a.bits - SIGN_BIT) as u64
        } else {
            (a.bits + SIGN_BIT) as u64
        },
    }
}

/// The sum of two numbers.
///
/// NaN where either is NaN or the two are infinities of opposite sign; an
/// infinity where one is infinite. Of finite numbers, the exact sum
/// rounded to nearest. An exact sum of zero is positive zero, unless both
/// numbers are negative (then both are negative zero).
pub open spec fn sum_of(a: Binary64, b: Binary64) -> Binary64 {
    if a.spec_is_nan() || b.spec_is_nan() {
        quiet_nan()
    } else if a.spec_is_infinite() {
        if b.spec_is_infinite() && a.sign_negative() != b.sign_negative() {
            quiet_nan()
        } else {
            a
        }
    } else if b.spec_is_infinite() {
        b
    } else {
        let exact = a.value() + b.value();
        if exact == 0 {
            signed_zero(a.sign_negative() && b.sign_negative())
        } else if exact < 0 {
            from_magnitude(true, nearest((-exact) as nat))
        } else {
            from_magnitude(false, nearest(exact as nat))
        }
    }
}

/// The difference of two numbers: the sum of the first and the negation
/// of the second.
pub open spec fn difference_of(a: Binary64, b: Binary64) -> Binary64 {
    sum_of(a, negation_of(b))
}

/// Half of a number. A magnitude that is even, as every magnitude with a
/// unit above the smallest is, is halved exactly; an odd one is rounded
/// to a whole number of smallest units.
pub open spec fn half_of(a: Binary64) -> Binary64 {
    if a.spec_is_nan() {
        quiet_nan()
    } else if a.spec_is_infinite() {
        a
    } else {
        from_magnitude(a.sign_negative(), round_half_even(a.magnitude(), 2))
    }
}

/// A hundred times a number.
pub open spec fn hundredfold_of(a: Binary64) -> Binary64 {
    if a.spec_is_nan() {
        quiet_nan()
    } else if a.spec_is_infinite() {
        a
    } else {
        from_magnitude(a.sign_negative(), nearest(100 * a.magnitude()))
    }
}

/// The parts of a finite pattern: the significand is below 2^53, has its
/// leading bit where the unit is not the smallest, and the pattern is the
/// unit exponent in the upper bits with the significand added.
pub proof fn lemma_parts(a: Binary64)
    requires
        a.spec_is_finite(),
    ensures
        a.significand() < pow2(53),
        a.unit_exponent() <= 2045,
        a.unit_exponent() > 0 ==> a.significand() >= pow2(52),
        a.exponent_field() > 0 ==> a.significand() >= pow2(52),
        a.magnitude_bits() == a.unit_exponent() * pow2(52) + a.significand(),
        pow2(52) == HIDDEN_BIT,
        pow2(53) == 2 * HIDDEN_BIT,
{
    lemma2_to64();
    lemma2_to64_rest();
}

/// A finite number is the number with its own sign and magnitude.
pub proof fn lemma_from_magnitude_inverse(a: Binary64)
    requires
        a.spec_is_finite(),
    ensures
        from_magnitude(a.sign_negative(), a.magnitude()) == a,
        a.magnitude() < overflow_threshold(),
{
    lemma_parts(a);
    lemma_encode_scaled(a.significand(), a.unit_exponent());
}

/// A finite number is its own nearest number.
pub proof fn lemma_nearest_of_magnitude(a: Binary64)
    requires
        a.spec_is_finite(),
    ensures
        nearest(a.magnitude()) == a.magnitude(),
{
    lemma_parts(a);
    lemma_bit_length_at_most(a.significand(), 53);
    lemma_nearest_exact(a.significand(), a.unit_exponent());
}

/// A number far below the unit of a larger one is lost in rounding: where
/// four times `small` is less than the unit of `large`, adding `small`
/// to `large` or taking it away leaves `large`.
pub proof fn lemma_far_operand(sig: nat, s: nat, small: nat)
    requires
        pow2(52) <= sig < pow2(53),
        s >= 2,
        4 * small < pow2(s),
    ensures
        nearest(sig * pow2(s) + small) == sig * pow2(s),
        nearest((sig * pow2(s) - small) as nat) == sig * pow2(s),
        small < sig * pow2(s),
{
    lemma2_to64();
    let unit = pow2(s);
    let large = sig * unit;
    let p52 = pow2(52);
    let p53 = pow2(53);
    lemma_pow2_pos(s);
    lemma_pow2_unfold(53);
    lemma_pow2_adds(52, s);
    lemma_pow2_adds(53, s);
    assert(p52 * unit <= large < p53 * unit) by (nonlinear_arith)
        requires
            large == sig * unit,
            p52 <= sig < p53,
            unit > 0,
    ;
    assert(large >= unit) by (nonlinear_arith)
        requires
            large >= p52 * unit,
            p52 >= 1,
            unit > 0,
    ;
    // Adding.
    let more = large + small;
    assert(more < p53 * unit) by (nonlinear_arith)
        requires
            more == sig * unit + small,
            sig < p53,
            small < unit,
    ;
    lemma_bit_length_unique(more, 53 + s);
    lemma_fundamental_div_mod_converse(more as int, unit as int, sig as int, small as int);
    assert(round_half_even(more, unit) == sig);
    // Taking away.
    let less = (large - small) as nat;
    if small == 0 {
        lemma_bit_length_unique(large, 53 + s);
        lemma_round_multiple(sig, unit);
    } else if sig > p52 {
        assert(less >= p52 * unit) by (nonlinear_arith)
            requires
                less == sig * unit - small,
                sig > p52,
                small < unit,
        ;
        lemma_bit_length_unique(less, 53 + s);
        assert(less == (sig - 1) * unit + (unit - small)) by (nonlinear_arith)
            requires
                less == sig * unit - small,
        ;
        lemma_fundamental_div_mod_converse(
            less as int,
            unit as int,
            sig - 1,
            unit - small,
        );
        assert(round_half_even(less, unit) == sig);
    } else {
        // The larger number is a power of two: below it the unit is half.
        let h = pow2((s - 1) as nat);
        lemma_pow2_unfold(s);
        lemma_pow2_unfold((s - 1) as nat);
        lemma_pow2_pos((s - 1) as nat);
        lemma_pow2_adds(51, s);
        lemma_pow2_unfold(52);
        assert(unit == 2 * h);
        assert(large == p53 * h) by (nonlinear_arith)
            requires
                large == sig * unit,
                sig == p52,
                p53 == 2 * p52,
                unit == 2 * h,
        ;
        assert(pow2(51 + s) == pow2(51) * unit);
        assert(less >= pow2(51) * unit) by (nonlinear_arith)
            requires
                less == large - small,
                large == p52 * unit,
                p52 == 2 * pow2(51),
                small < unit,
                pow2(51) >= 1,
        ;
        lemma_bit_length_unique(less, 52 + s);
        assert(less == (p53 - 1) * h + (h - small)) by (nonlinear_arith)
            requires
                less == large - small,
                large == p53 * h,
        ;
        lemma_fundamental_div_mod_converse(less as int, h as int, p53 - 1, h - small);
        assert((p53 - 1) % 2 == 1);
        assert(round_half_even(less, h) == p53);
    }
}

/// Among finite numbers a larger magnitude pattern is a larger magnitude.
pub proof fn lemma_magnitude_increases(a: Binary64, b: Binary64)
    requires
        a.spec_is_finite(),
        b.spec_is_finite(),
        a.magnitude_bits() < b.magnitude_bits(),
    ensures
        a.magnitude() < b.magnitude(),
{
    lemma_parts(a);
    lemma_parts(b);
    let sa = a.significand();
    let sb = b.significand();
    let ua = a.unit_exponent();
    let ub = b.unit_exponent();
    lemma_pow2_pos(ua);
    lemma_pow2_pos(ub);
    assert(ua * pow2(52) == ua * 0x10_0000_0000_0000);
    assert(ub * pow2(52) == ub * 0x10_0000_0000_0000);
    assert(ua <= ub);
    if ua == ub {
        assert(sa * pow2(ua) < sb * pow2(ua)) by (nonlinear_arith)
            requires
                sa < sb,
                pow2(ua) > 0,
        ;
    } else {
        lemma_pow2_increases(ua + 1, ub);
        lemma_pow2_unfold(ua + 1);
        assert(sa * pow2(ua) < sb * pow2(ub)) by (nonlinear_arith)
            requires
                sa < 2 * pow2(52),
                sb >= pow2(52),
                pow2(ua + 1) == 2 * pow2(ua),
                pow2(ua + 1) <= pow2(ub),
                pow2(ua) > 0,
                pow2(52) > 0,
        ;
    }
}

/// The order key orders finite numbers as their values do.
pub proof fn lemma_order_key_reflects_value(a: Binary64, b: Binary64)
    requires
        a.spec_is_finite(),
        b.spec_is_finite(),
    ensures
        a.order_key() < b.order_key() <==> a.value() < b.value(),
        a.order_key() == b.order_key() <==> a.value() == b.value(),
{
    lemma_parts(a);
    lemma_parts(b);
    let zero = Binary64 { bits: 0 };
    assert(zero.magnitude() == 0) by {
        lemma_parts(zero);
        assert(zero.significand() * pow2(zero.unit_exponent()) == 0) by (nonlinear_arith)
            requires
                zero.significand() == 0,
        ;
    }
    if a.magnitude_bits() < b.magnitude_bits() {
        lemma_magnitude_increases(a, b);
    } else if b.magnitude_bits() < a.magnitude_bits() {
        lemma_magnitude_increases(b, a);
    }
    if a.magnitude_bits() > 0 {
        lemma_magnitude_increases(zero, a.spec_abs());
    }
    if b.magnitude_bits() > 0 {
        lemma_magnitude_increases(zero, b.spec_abs());
    }
}

/// A finite number and its negation add up to positive zero.
pub proof fn lemma_sum_with_negation(y: Binary64)
    requires
        y.spec_is_finite(),
    ensures
        sum_of(y, negation_of(y)) == signed_zero(false),
        difference_of(y, negation_of(y)) == sum_of(y, y),
{
    assert(negation_of(negation_of(y)) == y);
}

/// Half of positive zero and a hundred times positive zero are positive
/// zero.
pub proof fn lemma_zero_stays_zero()
    ensures
        half_of(signed_zero(false)) == signed_zero(false),
        hundredfold_of(signed_zero(false)) == signed_zero(false),
{
    let zero = signed_zero(false);
    lemma_parts(zero);
    lemma_pow2_pos(2098);
    lemma_pow2_pos(53);
    assert(zero.magnitude() == 0) by (nonlinear_arith)
        requires
            zero.magnitude() == zero.significand() * pow2(zero.unit_exponent()),
            zero.significand() == 0,
    ;
    assert(bit_length(0) == 0);
}

/// The magnitude pattern of twice a number whose magnitude pattern is
/// `pattern`: a subnormal pattern is doubled, a normal one has its
/// exponent raised by one, and the result is infinity when that leaves
/// the finite range.
pub open spec fn doubled_pattern(pattern: u64) -> int {
    if pattern < HIDDEN_BIT {
        2 * pattern
    } else if pattern + HIDDEN_BIT >= INFINITY_BITS {
        INFINITY_BITS as int
    } else {
        pattern + HIDDEN_BIT
    }
}

/// A number that is not NaN, added to itself, keeps its sign and has the
/// doubled magnitude pattern.
pub proof fn lemma_sum_with_itself(y: Binary64)
    requires
        !y.spec_is_nan(),
    ensures
        sum_of(y, y).sign_negative() == y.sign_negative(),
        sum_of(y, y).magnitude_bits() == doubled_pattern(y.magnitude_bits()),
        !sum_of(y, y).spec_is_nan(),
{
    if y.spec_is_finite() {
        lemma_parts(y);
        lemma2_to64();
        let sig = y.significand();
        let u = y.unit_exponent();
        let pattern = y.magnitude_bits();
        let mag = y.magnitude();
        lemma_pow2_pos(u);
        lemma_pow2_unfold(u + 1);
        lemma_pow2_pos(2098);
        assert(u * pow2(52) == u * 0x10_0000_0000_0000);
        if sig == 0 {
            assert(mag == 0) by (nonlinear_arith)
                requires
                    mag == sig * pow2(u),
                    sig == 0,
            ;
        } else {
            assert(mag > 0 && 2 * mag == sig * pow2(u + 1)) by (nonlinear_arith)
                requires
                    mag == sig * pow2(u),
                    sig > 0,
                    pow2(u) > 0,
                    pow2(u + 1) == 2 * pow2(u),
            ;
            lemma_bit_length_at_most(sig, 53);
            lemma_nearest_exact(sig, u + 1);
            if y.exponent_field() > 0 {
                lemma_encode_scaled(sig, u + 1);
                assert((u + 1) * pow2(52) == (u + 1) * 0x10_0000_0000_0000);
            } else {
                assert(2 * mag == 2 * pattern) by (nonlinear_arith)
                    requires
                        mag == sig * pow2(u),
                        u == 0,
                        pow2(0) == 1,
                        sig == pattern,
                ;
                lemma_pow2_increases(53, 2098);
            }
        }
    }
}

/// Doubling keeps the order: of two numbers that are not NaN, the one
/// that is not greater has a double that is not greater.
pub proof fn lemma_doubling_keeps_order(a: Binary64, b: Binary64)
    requires
        !a.spec_is_nan(),
        !b.spec_is_nan(),
        a.order_key() <= b.order_key(),
    ensures
        sum_of(a, a).order_key() <= sum_of(b, b).order_key(),
{
    lemma_sum_with_itself(a);
    lemma_sum_with_itself(b);
}

/// Numbers with the same order key have the same absolute value.
pub proof fn lemma_same_key_same_abs(a: Binary64, b: Binary64)
    requires
        a.order_key() == b.order_key(),
    ensures
        a.spec_abs() == b.spec_abs(),
{
}

/// A number made from a sign and a rounded magnitude has that sign and
/// is not NaN.
pub proof fn lemma_rounded_sign(negative: bool, magnitude: nat)
    ensures
        from_magnitude(negative, nearest(magnitude)).sign_negative() == negative,
        !from_magnitude(negative, nearest(magnitude)).spec_is_nan(),
{
    let (sig, unit) = lemma_nearest_normalized(magnitude);
    lemma_encode_scaled(sig, unit);
    lemma2_to64();
    lemma2_to64_rest();
}

/// A hundred times a number that is not NaN is not NaN and has the sign
/// of the number.
pub proof fn lemma_hundredfold_keeps_sign(a: Binary64)
    requires
        !a.spec_is_nan(),
    ensures
        hundredfold_of(a).sign_negative() == a.sign_negative(),
        !hundredfold_of(a).spec_is_nan(),
{
    if a.spec_is_finite() {
        lemma_rounded_sign(a.sign_negative(), 100 * a.magnitude());
    }
}

/// Two to the power `k`.
fn power_of_two(k: u64) -> (p: u128)
    requires
        k <= 120,
    ensures
        p == pow2(k as nat),
{
    let mut p: u128 = 1;
    let mut i: u64 = 0;
    proof {
        lemma2_to64();
    }
    while i < k
        invariant
            i <= k <= 120,
            p == pow2(i as nat),
        decreases k - i,
    {
        proof {
            lemma_pow2_unfold((i + 1) as nat);
            lemma_pow2_increases((i + 1) as nat, 120);
            lemma_pow2_adds(60, 60);
            lemma2_to64_rest();
        }
        p = p * 2;
        i += 1;
    }
    p
}

/// The number of binary digits of `m`.
fn count_bits(m: u128) -> (len: u64)
    ensures
        len == bit_length(m as nat),
        len <= 128,
{
    let mut rest: u128 = m;
    let mut len: u64 = 0;
    proof {
        lemma2_to64();
        lemma_pow2_adds(64, 64);
        lemma_bit_length_at_most(m as nat, 128);
    }
    while rest > 0
        invariant
            bit_length(m as nat) == len + bit_length(rest as nat),
            bit_length(m as nat) <= 128,
        decreases rest,
    {
        rest = rest / 2;
        len += 1;
    }
    len
}

/// The number with the given sign and magnitude pattern.
fn with_sign(negative: bool, pattern: u64) -> (r: Binary64)
    requires
        pattern < SIGN_BIT,
    ensures
        r.bits == if negative {
            SIGN_BIT + pattern
        } else {
            pattern as int
        },
{
    if negative {
        Binary64 { bits: SIGN_BIT + pattern }
    } else {
        Binary64 { bits: pattern }
    }
}

/// Rounds `m` times 2 to the power `s`, a magnitude, to the nearest
/// number and gives it the sign.
fn round_scaled(negative: bool, m: u128, s: u64) -> (r: Binary64)
    requires
        m < WIDE_LIMIT,
        s <= 2045,
    ensures
        r == from_magnitude(negative, nearest(m as nat * pow2(s as nat))),
{
    let ghost exact = m as nat * pow2(s as nat);
    proof {
        lemma2_to64();
        lemma2_to64_rest();
        lemma_pow2_adds(58, 58);
        lemma_pow2_pos(s as nat);
    }
    if m == 0 {
        proof {
            assert(exact == 0) by (nonlinear_arith)
                requires
                    exact == m as nat * pow2(s as nat),
                    m == 0,
            ;
            assert(bit_length(0) == 0);
            lemma_pow2_pos(53);
            lemma_pow2_pos(2098);
        }
        return with_sign(negative, 0);
    }
    let len: u64 = count_bits(m);
    proof {
        lemma_bit_length_bounds(m as nat);
        lemma_bit_length_at_most(m as nat, 116);
        lemma_bit_length_scaled(m as nat, s as nat);
    }
    let sig: u64;
    let unit: u64;
    if len <= 53 {
        let room: u64 = 53 - len;
        let shift: u64 = if s < room { s } else { room };
        let factor: u128 = power_of_two(shift);
        proof {
            lemma_bit_length_scaled(m as nat, shift as nat);
            lemma_bit_length_bounds(m as nat * pow2(shift as nat));
            lemma_pow2_increases(len as nat + shift as nat, 53);
            lemma_pow2_adds(shift as nat, (s - shift) as nat);
            lemma_pow2_pos(shift as nat);
            assert(m as nat * pow2(shift as nat) > 0) by (nonlinear_arith)
                requires
                    m > 0,
                    pow2(shift as nat) > 0,
            ;
            assert(m * factor < 0x20_0000_0000_0000);
        }
        let wide: u128 = m * factor;
        sig = wide as u64;
        unit = s - shift;
        proof {
            assert(exact == sig as nat * pow2(unit as nat)) by (nonlinear_arith)
                requires
                    exact == m as nat * pow2(s as nat),
                    sig as nat == m as nat * pow2(shift as nat),
                    pow2(s as nat) == pow2(shift as nat) * pow2(unit as nat),
            ;
            lemma_nearest_exact(m as nat, s as nat);
            assert(nearest(exact) == exact);
            if unit > 0 {
                assert(len + shift == 53);
            }
        }
    } else {
        let cut: u64 = len - 53;
        let divisor: u128 = power_of_two(cut);
        proof {
            lemma_pow2_pos(cut as nat);
            lemma_pow2_unfold(cut as nat);
            lemma_pow2_adds(52, cut as nat);
            lemma_pow2_adds(53, cut as nat);
            lemma_pow2_adds(cut as nat, s as nat);
            lemma_fundamental_div_mod(m as int, divisor as int);
        }
        let q: u128 = m / divisor;
        let r: u128 = m % divisor;
        let half: u128 = divisor / 2;
        proof {
            assert(pow2(52) <= q < pow2(53)) by (nonlinear_arith)
                requires
                    m == divisor * q + r,
                    0 <= r < divisor,
                    pow2(52) * divisor <= m < pow2(53) * divisor,
            ;
        }
        let up: bool = r > half || (r == half && q % 2 == 1);
        let rounded: u128 = if up { q + 1 } else { q };
        sig = rounded as u64;
        unit = cut + s;
        proof {
            assert(rounded == round_half_even(m as nat, divisor as nat));
            lemma_round_common_factor(m as nat, divisor as nat, pow2(s as nat));
            assert(bit_length(exact) == len + s);
            assert(nearest(exact) == round_half_even(exact, pow2((cut + s) as nat)) * pow2(
                (cut + s) as nat,
            ));
            assert(nearest(exact) == sig as nat * pow2(unit as nat));
        }
    }
    proof {
        lemma_encode_scaled(sig as nat, unit as nat);
        assert(unit as nat * pow2(52) == unit * 0x10_0000_0000_0000);
    }
    let pattern: u64 = unit * HIDDEN_BIT + sig;
    if pattern >= INFINITY_BITS {
        with_sign(negative, INFINITY_BITS)
    } else {
        with_sign(negative, pattern)
    }
}

impl Binary64 {
    /// The significand and the unit exponent of a finite number.
    fn parts(self) -> (parts: (u64, u64))
        requires
            self.spec_is_finite(),
        ensures
            parts.0 == self.significand(),
            parts.1 == self.unit_exponent(),
            parts.0 < 2 * HIDDEN_BIT,
            parts.1 <= 2045,
            parts.1 > 0 ==> parts.0 >= HIDDEN_BIT,
            self.magnitude_bits() == parts.1 * HIDDEN_BIT + parts.0,
    {
        let pattern: u64 = if self.bits >= SIGN_BIT {
            self.bits - SIGN_BIT
        } else {
            self.bits
        };
        let exponent: u64 = pattern / HIDDEN_BIT;
        let fraction: u64 = pattern % HIDDEN_BIT;
        if exponent == 0 {
            (fraction, 0)
        } else {
            (HIDDEN_BIT + fraction, exponent - 1)
        }
    }

    /// The number with the opposite sign.
    pub fn negate(self) -> (r: Binary64)
        ensures
            r == negation_of(self),
    {
        if self.bits >= SIGN_BIT {
            Binary64 { bits: self.bits - SIGN_BIT }
        } else {
            Binary64 { bits: self.bits + SIGN_BIT }
        }
    }

    /// Half of the number.
    pub fn halve(self) -> (r: Binary64)
        ensures
            r == half_of(self),
    {
        if self.is_nan() {
            return Binary64 { bits: QUIET_NAN_BITS };
        }
        if self.is_infinite() {
            return self;
        }
        let negative: bool = self.bits >= SIGN_BIT;
        let pattern: u64 = if negative {
            self.bits - SIGN_BIT
        } else {
            self.bits
        };
        proof {
            lemma_parts(self);
            lemma2_to64();
            lemma_pow2_pos(2098);
        }
        if pattern >= 2 * HIDDEN_BIT {
            // The unit is not the smallest: the exponent goes down by one.
            proof {
                let sig = self.significand();
                let s = self.unit_exponent();
                lemma_pow2_unfold(s);
                let lower = pow2((s - 1) as nat);
                assert(self.magnitude() == (sig * lower) * 2) by (nonlinear_arith)
                    requires
                        self.magnitude() == sig * pow2(s),
                        pow2(s) == 2 * lower,
                ;
                lemma_round_multiple(sig * lower, 2);
                lemma_encode_scaled(sig, (s - 1) as nat);
                lemma_encode_scaled(sig, s);
                assert((s - 1) as nat * pow2(52) + sig == pattern - HIDDEN_BIT) by (nonlinear_arith)
                    requires
                        pattern == s * pow2(52) + sig,
                        pow2(52) == HIDDEN_BIT,
                        s >= 1,
                ;
                assert(sig * lower < overflow_threshold()) by (nonlinear_arith)
                    requires
                        sig * pow2(s) < overflow_threshold(),
                        pow2(s) == 2 * lower,
                ;
            }
            with_sign(negative, pattern - HIDDEN_BIT)
        } else {
            // The unit is the smallest: the pattern is the magnitude.
            proof {
                assert(self.magnitude() == pattern) by (nonlinear_arith)
                    requires
                        self.magnitude() == self.significand() * pow2(self.unit_exponent()),
                        self.unit_exponent() == 0,
                        pow2(0) == 1,
                        pattern == self.significand(),
                ;
                lemma_pow2_increases(53, 2098);
            }
            let q: u64 = pattern / 2;
            let odd: bool = pattern % 2 == 1;
            let rounded: u64 = if odd && q % 2 == 1 {
                q + 1
            } else {
                q
            };
            with_sign(negative, rounded)
        }
    }

    /// A hundred times the number.
    pub fn hundredfold(self) -> (r: Binary64)
        ensures
            r == hundredfold_of(self),
    {
        if self.is_nan() {
            return Binary64 { bits: QUIET_NAN_BITS };
        }
        if self.is_infinite() {
            return self;
        }
        let negative: bool = self.bits >= SIGN_BIT;
        let (sig, unit) = self.parts();
        proof {
            lemma_parts(self);
            assert(100 * self.magnitude() == (100 * sig) as nat * pow2(unit as nat))
                by (nonlinear_arith)
                requires
                    self.magnitude() == sig as nat * pow2(unit as nat),
            ;
        }
        let wide: u128 = 100 * (sig as u128);
        round_scaled(negative, wide, unit)
    }
    /// The sum of two finite numbers of which the first has the larger
    /// magnitude pattern, or the same.
    fn plus_ordered(self, lo: Binary64) -> (r: Binary64)
        requires
            self.spec_is_finite(),
            lo.spec_is_finite(),
            self.magnitude_bits() >= lo.magnitude_bits(),
        ensures
            r == sum_of(self, lo),
    {
        let hi_negative: bool = self.bits >= SIGN_BIT;
        let lo_negative: bool = lo.bits >= SIGN_BIT;
        let (hi_sig, hi_unit) = self.parts();
        let (lo_sig, lo_unit) = lo.parts();
        let ghost large = self.magnitude();
        let ghost small = lo.magnitude();
        proof {
            lemma_parts(self);
            lemma_parts(lo);
            lemma2_to64();
            lemma2_to64_rest();
            lemma_pow2_pos(hi_unit as nat);
            lemma_pow2_pos(lo_unit as nat);
        }
        if lo_sig == 0 {
            proof {
                assert(small == 0) by (nonlinear_arith)
                    requires
                        small == lo_sig as nat * pow2(lo_unit as nat),
                        lo_sig == 0,
                ;
            }
            if hi_sig == 0 {
                proof {
                    assert(large == 0) by (nonlinear_arith)
                        requires
                            large == hi_sig as nat * pow2(hi_unit as nat),
                            hi_sig == 0,
                    ;
                }
                return with_sign(hi_negative && lo_negative, 0);
            }
            proof {
                assert(large > 0) by (nonlinear_arith)
                    requires
                        large == hi_sig as nat * pow2(hi_unit as nat),
                        hi_sig > 0,
                        pow2(hi_unit as nat) > 0,
                ;
                lemma_nearest_of_magnitude(self);
                lemma_from_magnitude_inverse(self);
            }
            return self;
        }
        assert(hi_unit >= lo_unit);
        let gap: u64 = hi_unit - lo_unit;
        if gap > ALIGN_LIMIT {
            proof {
                lemma_pow2_adds(53, lo_unit as nat);
                lemma_pow2_adds(2, 53 + lo_unit as nat);
                lemma_pow2_increases(55 + lo_unit as nat, hi_unit as nat);
                assert(small < pow2(53) * pow2(lo_unit as nat)) by (nonlinear_arith)
                    requires
                        small == lo_sig as nat * pow2(lo_unit as nat),
                        lo_sig < pow2(53),
                        pow2(lo_unit as nat) > 0,
                ;
                assert(small > 0) by (nonlinear_arith)
                    requires
                        small == lo_sig as nat * pow2(lo_unit as nat),
                        lo_sig > 0,
                        pow2(lo_unit as nat) > 0,
                ;
                lemma_far_operand(hi_sig as nat, hi_unit as nat, small);
                lemma_from_magnitude_inverse(self);
            }
            return self;
        }
        let factor: u128 = power_of_two(gap);
        proof {
            lemma_pow2_increases(gap as nat, 60);
            lemma_pow2_pos(gap as nat);
            lemma_pow2_adds(gap as nat, lo_unit as nat);
            if gap > 0 {
                lemma_pow2_increases(1, gap as nat);
            }
            assert(hi_sig * factor < 0x20_0000_0000_0000 * 0x1000_0000_0000_0000)
                by (nonlinear_arith)
                requires
                    hi_sig < 0x20_0000_0000_0000,
                    0 < factor <= 0x1000_0000_0000_0000,
            ;
            assert(hi_sig * factor >= lo_sig) by (nonlinear_arith)
                requires
                    gap == 0 ==> hi_sig >= lo_sig && factor == 1,
                    gap > 0 ==> hi_sig >= 0x10_0000_0000_0000 && factor >= 2,
                    lo_sig < 0x20_0000_0000_0000,
            ;
        }
        let aligned: u128 = (hi_sig as u128) * factor;
        proof {
            assert(large == aligned as nat * pow2(lo_unit as nat)) by (nonlinear_arith)
                requires
                    large == hi_sig as nat * pow2(hi_unit as nat),
                    pow2(hi_unit as nat) == pow2(gap as nat) * pow2(lo_unit as nat),
                    aligned == hi_sig * pow2(gap as nat),
            ;
        }
        let m: u128 = if hi_negative == lo_negative {
            aligned + (lo_sig as u128)
        } else {
            aligned - (lo_sig as u128)
        };
        proof {
            if hi_negative == lo_negative {
                assert(m as nat * pow2(lo_unit as nat) == large + small) by (nonlinear_arith)
                    requires
                        m == aligned + lo_sig,
                        large == aligned as nat * pow2(lo_unit as nat),
                        small == lo_sig as nat * pow2(lo_unit as nat),
                ;
            } else {
                assert(m as nat * pow2(lo_unit as nat) == large - small) by (nonlinear_arith)
                    requires
                        m == aligned - lo_sig,
                        large == aligned as nat * pow2(lo_unit as nat),
                        small == lo_sig as nat * pow2(lo_unit as nat),
                ;
            }
            assert(m > 0 ==> m as nat * pow2(lo_unit as nat) > 0) by (nonlinear_arith)
                requires
                    pow2(lo_unit as nat) > 0,
            ;
            assert(m == 0 ==> m as nat * pow2(lo_unit as nat) == 0) by (nonlinear_arith);
        }
        if m == 0 {
            return with_sign(false, 0);
        }
        round_scaled(hi_negative, m, lo_unit)
    }

    /// The sum of two numbers.
    pub fn plus(self, other: Binary64) -> (r: Binary64)
        ensures
            r == sum_of(self, other),
    {
        if self.is_nan() || other.is_nan() {
            return Binary64 { bits: QUIET_NAN_BITS };
        }
        if self.is_infinite() {
            if other.is_infinite() && (self.bits >= SIGN_BIT) != (other.bits >= SIGN_BIT) {
                return Binary64 { bits: QUIET_NAN_BITS };
            }
            return self;
        }
        if other.is_infinite() {
            return other;
        }
        if self.unsigned_bits() >= other.unsigned_bits() {
            self.plus_ordered(other)
        } else {
            other.plus_ordered(self)
        }
    }

    /// The difference of two numbers.
    pub fn minus(self, other: Binary64) -> (r: Binary64)
        ensures
            r == difference_of(self, other),
    {
        self.plus(other.negate())
    }
}

} // verus!
