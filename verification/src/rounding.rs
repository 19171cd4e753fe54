//! Rounding to the nearest binary64 number.
//!
//! Magnitudes are counted in units of the smallest positive number, so
//! every finite magnitude is a natural number: a significand of at most
//! 53 bits times a power of two. A natural number of at most 53 bits is
//! such a magnitude as it stands. A longer one lies between two
//! neighbouring multiples of the unit that leaves it 53 bits, and is
//! rounded to the nearer of them, to the even one when it lies half way.

use vstd::prelude::*;
use vstd::arithmetic::power2::{
    lemma2_to64,
    lemma_pow2_adds,
    lemma_pow2_pos,
    lemma_pow2_strictly_increases,
    lemma_pow2_unfold,
    pow2,
};
use vstd::arithmetic::div_mod::{
    lemma_div_by_multiple,
    lemma_fundamental_div_mod,
    lemma_fundamental_div_mod_converse,
    lemma_mod_multiples_basic,
};

verus! {

/// The number of binary digits of a natural number; zero has none.
pub open spec fn bit_length(x: nat) -> nat
    decreases x,
{
    if x == 0 {
        0
    } else {
        1 + bit_length(x / 2)
    }
}

/// The integer nearest to `x / d`, the even one of two that are equally
/// near.
pub open spec fn round_half_even(x: nat, d: nat) -> nat {
    let q = x / d;
    let r = x % d;
    if 2 * r > d || (2 * r == d && q % 2 == 1) {
        q + 1
    } else {
        q
    }
}

/// The magnitude nearest to a natural number, where the range of the
/// exponent sets no limit.
pub open spec fn nearest(x: nat) -> nat {
    if bit_length(x) <= 53 {
        x
    } else {
        let unit = pow2((bit_length(x) - 53) as nat);
        round_half_even(x, unit) * unit
    }
}

/// The pattern of a magnitude: the magnitude itself below 2^53, where the
/// unit is 1; above, the exponent of the unit in the upper bits and the
/// significand, less its leading bit, in the lower 52.
pub open spec fn encode(v: nat) -> nat {
    if v < pow2(53) {
        v
    } else {
        let s = (bit_length(v) - 53) as nat;
        s * pow2(52) + v / pow2(s)
    }
}

/// The least magnitude that is too large to be finite: 2^1024, counted in
/// units of 2^-1074.
pub open spec fn overflow_threshold() -> nat {
    pow2(2098)
}

/// A power of two is at least as large as a power with a smaller
/// exponent.
pub proof fn lemma_pow2_increases(e1: nat, e2: nat)
    requires
        e1 <= e2,
    ensures
        pow2(e1) <= pow2(e2),
{
    if e1 < e2 {
        lemma_pow2_strictly_increases(e1, e2);
    }
}

/// A positive number lies between the two powers of two that its bit
/// length names.
pub proof fn lemma_bit_length_bounds(x: nat)
    requires
        x > 0,
    ensures
        bit_length(x) >= 1,
        pow2((bit_length(x) - 1) as nat) <= x < pow2(bit_length(x)),
    decreases x,
{
    lemma2_to64();
    if x == 1 {
        assert(bit_length(0) == 0);
        assert(bit_length(1) == 1 + bit_length(0));
    } else {
        let y = x / 2;
        assert(y > 0);
        lemma_bit_length_bounds(y);
        assert(bit_length(x) == 1 + bit_length(y));
        lemma_pow2_unfold(bit_length(y));
        lemma_pow2_unfold(bit_length(x));
    }
}

/// A number between two neighbouring powers of two has the bit length
/// that they name.
pub proof fn lemma_bit_length_unique(x: nat, k: nat)
    requires
        k >= 1,
        pow2((k - 1) as nat) <= x < pow2(k),
    ensures
        bit_length(x) == k,
{
    lemma_pow2_pos((k - 1) as nat);
    lemma_bit_length_bounds(x);
    let len = bit_length(x);
    if len < k {
        lemma_pow2_increases(len, (k - 1) as nat);
    } else if len > k {
        lemma_pow2_increases(k, (len - 1) as nat);
    }
}

/// A number below a power of two has no more bits than the exponent.
pub proof fn lemma_bit_length_at_most(x: nat, k: nat)
    requires
        x < pow2(k),
    ensures
        bit_length(x) <= k,
{
    if x > 0 {
        lemma_bit_length_bounds(x);
        if bit_length(x) > k {
            lemma_pow2_increases(k, (bit_length(x) - 1) as nat);
        }
    }
}

/// Multiplying by a power of two adds the exponent to the bit length.
pub proof fn lemma_bit_length_scaled(y: nat, t: nat)
    requires
        y > 0,
    ensures
        bit_length(y * pow2(t)) == bit_length(y) + t,
{
    lemma_bit_length_bounds(y);
    let len = bit_length(y);
    let p = pow2(t);
    lemma_pow2_pos(t);
    lemma_pow2_adds((len - 1) as nat, t);
    lemma_pow2_adds(len, t);
    let low = pow2((len - 1) as nat);
    let high = pow2(len);
    assert(low * p <= y * p < high * p) by (nonlinear_arith)
        requires
            low <= y < high,
            p > 0,
    ;
    lemma_bit_length_unique(y * p, len + t);
}

/// A multiple of the divisor is divided without rounding.
pub proof fn lemma_round_multiple(y: nat, d: nat)
    requires
        d > 0,
    ensures
        round_half_even(y * d, d) == y,
{
    lemma_fundamental_div_mod_converse((y * d) as int, d as int, y as int, 0);
}

/// A factor common to the number and the divisor does not change the
/// rounded quotient.
pub proof fn lemma_round_common_factor(x: nat, d: nat, k: nat)
    requires
        d > 0,
        k > 0,
    ensures
        round_half_even(x * k, d * k) == round_half_even(x, d),
{
    let q = x / d;
    let r = x % d;
    lemma_fundamental_div_mod(x as int, d as int);
    assert(0 <= r < d);
    assert(x * k == q * (d * k) + r * k && 0 <= r * k < d * k) by (nonlinear_arith)
        requires
            x == d * q + r,
            0 <= r < d,
            k > 0,
    ;
    lemma_fundamental_div_mod_converse((x * k) as int, (d * k) as int, q as int, (r * k) as int);
    assert((2 * (r * k) > d * k) == (2 * r > d) && (2 * (r * k) == d * k) == (2 * r == d))
        by (nonlinear_arith)
        requires
            k > 0,
    ;
}

/// A magnitude that is a number of at most 53 bits times a power of two
/// is its own nearest magnitude.
pub proof fn lemma_nearest_exact(y: nat, t: nat)
    requires
        bit_length(y) <= 53,
    ensures
        nearest(y * pow2(t)) == y * pow2(t),
{
    let x = y * pow2(t);
    if y == 0 {
        assert(x == 0) by (nonlinear_arith)
            requires
                x == y * pow2(t),
                y == 0,
        ;
    } else {
        lemma_bit_length_scaled(y, t);
        if bit_length(x) > 53 {
            let c = (bit_length(x) - 53) as nat;
            assert(c <= t);
            lemma_pow2_adds((t - c) as nat, c);
            lemma_pow2_pos(c);
            let rest = pow2((t - c) as nat);
            let unit = pow2(c);
            assert(x == (y * rest) * unit) by (nonlinear_arith)
                requires
                    x == y * pow2(t),
                    pow2(t) == rest * unit,
            ;
            lemma_round_multiple(y * rest, unit);
        }
    }
}

/// The pattern of a significand times its unit: the exponent of the unit
/// in the upper bits, with the significand added. A significand of 2^53,
/// which rounding up can give, carries into the exponent. The magnitude
/// is too large to be finite exactly when the pattern reaches that of
/// infinity.
pub proof fn lemma_encode_scaled(sig: nat, s: nat)
    requires
        sig <= pow2(53),
        sig >= pow2(52) || s == 0,
    ensures
        encode(sig * pow2(s)) == s * pow2(52) + sig,
        sig * pow2(s) >= overflow_threshold() <==> s * pow2(52) + sig >= 2047 * pow2(52),
{
    lemma2_to64();
    lemma_pow2_unfold(53);
    lemma_pow2_unfold(54);
    lemma_pow2_pos(52);
    lemma_pow2_pos(s);
    let v = sig * pow2(s);
    let p52 = pow2(52);
    assert(pow2(53) == 2 * p52);
    if s == 0 {
        assert(v == sig) by (nonlinear_arith)
            requires
                v == sig * pow2(s),
                pow2(s) == 1,
        ;
        lemma_pow2_increases(53, 2098);
        lemma_pow2_strictly_increases(53, 2098);
        if sig == pow2(53) {
            lemma_bit_length_unique(v, 54);
            assert(v == 2 * p52);
            assert(v as int == (p52 as int) * 2 + 0);
            lemma_fundamental_div_mod_converse(v as int, 2, p52 as int, 0);
        }
    } else if sig < pow2(53) {
        lemma_bit_length_unique(sig, 53);
        lemma_bit_length_scaled(sig, s);
        lemma_fundamental_div_mod_converse(v as int, pow2(s) as int, sig as int, 0);
        assert(v >= pow2(53)) by (nonlinear_arith)
            requires
                v == sig * pow2(s),
                sig >= p52,
                pow2(s) >= 2,
                pow2(53) == 2 * p52,
        {
        }
        assert(pow2(s) >= 2) by {
            lemma_pow2_increases(1, s);
        }
        if s >= 2046 {
            lemma_pow2_increases(2046, s);
            lemma_pow2_adds(52, 2046);
            assert(v >= p52 * pow2(2046)) by (nonlinear_arith)
                requires
                    v == sig * pow2(s),
                    sig >= p52,
                    pow2(s) >= pow2(2046),
            ;
            assert(s * p52 >= 2046 * p52) by (nonlinear_arith)
                requires
                    s >= 2046,
                    p52 > 0,
            ;
        } else {
            lemma_pow2_increases(s, 2045);
            lemma_pow2_adds(53, 2045);
            lemma_pow2_pos(2045);
            assert(v < pow2(53) * pow2(2045)) by (nonlinear_arith)
                requires
                    v == sig * pow2(s),
                    sig < pow2(53),
                    0 < pow2(s) <= pow2(2045),
            ;
            assert(s * p52 <= 2045 * p52) by (nonlinear_arith)
                requires
                    s <= 2045,
                    p52 > 0,
            ;
        }
    } else {
        lemma_pow2_adds(53, s);
        lemma_pow2_adds(52, s + 1);
        lemma_pow2_strictly_increases(53, 53 + s);
        lemma_pow2_strictly_increases(53 + s, 54 + s);
        lemma_bit_length_unique(v, 54 + s);
        lemma_pow2_pos(s + 1);
        assert(v == p52 * pow2(s + 1));
        lemma_fundamental_div_mod_converse(v as int, pow2(s + 1) as int, p52 as int, 0);
        assert((s + 1) * p52 + p52 == s * p52 + 2 * p52) by (nonlinear_arith);
        if s >= 2045 {
            lemma_pow2_increases(2098, 53 + s);
            assert(s * p52 >= 2045 * p52) by (nonlinear_arith)
                requires
                    s >= 2045,
                    p52 > 0,
            ;
        } else {
            lemma_pow2_strictly_increases(53 + s, 2098);
            assert(s * p52 <= 2044 * p52) by (nonlinear_arith)
                requires
                    s <= 2044,
                    p52 > 0,
            ;
        }
    }
}

/// The nearest magnitude has the form of a magnitude: a significand of at
/// most 53 bits times its unit, with the leading bit set wherever the
/// unit is not the smallest. Rounding up can give a significand of 2^53.
pub proof fn lemma_nearest_normalized(x: nat) -> (parts: (nat, nat))
    ensures
        nearest(x) == parts.0 * pow2(parts.1),
        parts.0 <= pow2(53),
        parts.0 >= pow2(52) || parts.1 == 0,
{
    lemma2_to64();
    if bit_length(x) <= 53 {
        if x > 0 {
            lemma_bit_length_bounds(x);
            lemma_pow2_increases(bit_length(x), 53);
        } else {
            lemma_pow2_pos(53);
        }
        assert(x * pow2(0) == x) by (nonlinear_arith)
            requires
                pow2(0) == 1,
        ;
        (x, 0)
    } else {
        let cut = (bit_length(x) - 53) as nat;
        let unit = pow2(cut);
        lemma_bit_length_bounds(x);
        lemma_pow2_pos(cut);
        lemma_pow2_adds(52, cut);
        lemma_pow2_adds(53, cut);
        lemma_fundamental_div_mod(x as int, unit as int);
        let q = x / unit;
        let r = x % unit;
        assert(pow2(52) <= q < pow2(53)) by (nonlinear_arith)
            requires
                x == unit * q + r,
                0 <= r < unit,
                pow2(52) * unit <= x < pow2(53) * unit,
        ;
        (round_half_even(x, unit), cut)
    }
}

} // verus!
