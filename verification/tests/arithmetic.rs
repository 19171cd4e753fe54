use airfoil_catalog::binary64::{Binary64, Comparison};

fn number(x: f64) -> Binary64 {
    Binary64::from_bits(x.to_bits())
}

fn check(result: Binary64, expected: f64, what: &str) {
    if expected.is_nan() {
        assert!(result.is_nan(), "{}: expected NaN, got {:#x}", what, result.to_bits());
    } else {
        assert_eq!(
            result.to_bits(),
            expected.to_bits(),
            "{}: expected {:e}, got {:e}",
            what,
            expected,
            f64::from_bits(result.to_bits())
        );
    }
}

fn samples() -> Vec<f64> {
    let mut all = vec![
        0.0,
        -0.0,
        1.0,
        -1.0,
        0.5,
        0.1,
        -0.1,
        0.05,
        100.0,
        1.0e-320,
        -3.0e-324,
        5.0e-324,
        1.5e-323,
        2.2250738585072014e-308,
        2.225073858507201e-308,
        4.450147717014403e-308,
        1.7976931348623157e308,
        -1.7976931348623157e308,
        8.98846567431158e307,
        1.8e306,
        1.797693134862315e306,
        f64::INFINITY,
        f64::NEG_INFINITY,
        f64::NAN,
        1.0 + f64::EPSILON,
        1.0 - f64::EPSILON / 2.0,
        9007199254740992.0,
        9007199254740993.0,
        4503599627370496.0,
        4503599627370495.5,
        1.0e16,
        1.0e-16,
        3.0e-17,
        0.3333333333333333,
        2.0 / 3.0,
    ];
    let mut state: u64 = 0x2545_f491_4f6c_dd1d;
    for _ in 0..400 {
        state ^= state << 13;
        state ^= state >> 7;
        state ^= state << 17;
        all.push(f64::from_bits(state));
        // Numbers near one another, so that sums cancel and carry.
        let near = 0x3ff0_0000_0000_0000u64 ^ (state & 0x801f_ffff_ffff_ffff);
        all.push(f64::from_bits(near));
        // Numbers at the lower end of the range.
        all.push(f64::from_bits(state & 0x803f_ffff_ffff_ffff));
    }
    all
}

#[test]
fn sum_agrees_with_the_machine() {
    let all = samples();
    for (i, &x) in all.iter().enumerate() {
        for &y in all.iter().skip(i % 7).step_by(7) {
            check(number(x).plus(number(y)), x + y, &format!("{:e} + {:e}", x, y));
        }
    }
}

#[test]
fn difference_agrees_with_the_machine() {
    let all = samples();
    for (i, &x) in all.iter().enumerate() {
        for &y in all.iter().skip(i % 5).step_by(5) {
            check(number(x).minus(number(y)), x - y, &format!("{:e} - {:e}", x, y));
        }
    }
}

#[test]
fn half_agrees_with_the_machine() {
    for &x in samples().iter() {
        check(number(x).halve(), x / 2.0, &format!("{:e} / 2", x));
    }
}

#[test]
fn hundredfold_agrees_with_the_machine() {
    for &x in samples().iter() {
        check(number(x).hundredfold(), x * 100.0, &format!("{:e} * 100", x));
    }
}

#[test]
fn absolute_value_and_negation_agree_with_the_machine() {
    for &x in samples().iter() {
        if !x.is_nan() {
            check(number(x).abs(), x.abs(), "abs");
            check(number(x).negate(), -x, "neg");
        }
        assert_eq!(number(x).is_nan(), x.is_nan());
        assert_eq!(number(x).is_infinite(), x.is_infinite());
        assert_eq!(number(x).is_finite(), x.is_finite());
    }
}

#[test]
fn comparison_agrees_with_the_machine() {
    let all = samples();
    for &x in all.iter() {
        for &y in all.iter().step_by(3) {
            let expected = match x.partial_cmp(&y) {
                Some(std::cmp::Ordering::Less) => Some(Comparison::Less),
                Some(std::cmp::Ordering::Equal) => Some(Comparison::Equal),
                Some(std::cmp::Ordering::Greater) => Some(Comparison::Greater),
                None => None,
            };
            assert_eq!(number(x).compare(number(y)), expected, "{:e} ? {:e}", x, y);
            assert_eq!(number(x).exceeds(number(y)), x > y);
        }
    }
}

#[test]
fn half_of_the_smallest_numbers_rounds_to_even() {
    // One smallest unit halves to zero, three of them to two.
    assert_eq!(Binary64::from_bits(1).halve().to_bits(), 0);
    assert_eq!(Binary64::from_bits(3).halve().to_bits(), 2);
    assert_eq!(Binary64::from_bits(0x8000_0000_0000_0001).halve().to_bits(), 0x8000_0000_0000_0000);
    // The smallest normal number halves to a subnormal one.
    assert_eq!(
        Binary64::from_bits(0x0010_0000_0000_0000).halve().to_bits(),
        0x0008_0000_0000_0000
    );
}

#[test]
fn hundredfold_overflows_to_infinity() {
    let big = number(1.0e307);
    assert_eq!(big.hundredfold().to_bits(), f64::INFINITY.to_bits());
    assert_eq!(big.negate().hundredfold().to_bits(), f64::NEG_INFINITY.to_bits());
    assert_eq!(number(0.05).hundredfold().to_bits(), 5.0f64.to_bits());
}

#[test]
fn sum_of_opposite_infinities_is_nan() {
    let r = number(f64::INFINITY).plus(number(f64::NEG_INFINITY));
    assert!(r.is_nan());
    assert_eq!(r.to_bits(), 0x7ff8_0000_0000_0000);
}

#[test]
fn sum_of_zeros_keeps_the_sign_only_when_both_are_negative() {
    assert_eq!(number(-0.0).plus(number(-0.0)).to_bits(), (-0.0f64).to_bits());
    assert_eq!(number(-0.0).plus(number(0.0)).to_bits(), 0);
    assert_eq!(number(2.5).plus(number(-2.5)).to_bits(), 0);
    assert_eq!(number(-2.5).minus(number(-2.5)).to_bits(), 0);
}

#[test]
fn sum_agrees_with_the_machine_at_every_gap_of_exponents() {
    let mut state: u64 = 0x0123_4567_89ab_cdef;
    let mut next = move || {
        state ^= state << 13;
        state ^= state >> 7;
        state ^= state << 17;
        state
    };
    let fraction_mask: u64 = 0x000f_ffff_ffff_ffff;
    for base in [1u64, 2, 53, 54, 500, 1023, 1900, 1970] {
        for gap in 0u64..=75 {
            for round in 0..12 {
                let low_fraction = match round {
                    0 => 0,
                    1 => fraction_mask,
                    2 => 1,
                    _ => next() & fraction_mask,
                };
                let high_fraction = match round {
                    0 | 3 => 0,
                    1 | 4 => fraction_mask,
                    5 => 1,
                    _ => next() & fraction_mask,
                };
                let low = f64::from_bits((base << 52) | low_fraction);
                let high = f64::from_bits(((base + gap) << 52) | high_fraction);
                for (x, y) in [(high, low), (low, high), (-high, low), (high, -low), (-high, -low)] {
                    check(number(x).plus(number(y)), x + y, &format!("{:e} + {:e}", x, y));
                    check(number(x).minus(number(y)), x - y, &format!("{:e} - {:e}", x, y));
                }
            }
        }
    }
    // Subnormal numbers against numbers a few exponents above them.
    for gap in 0u64..=60 {
        for fraction in [1u64, 2, 3, 0x8_0000_0000_0000, fraction_mask] {
            let low = f64::from_bits(fraction);
            let high = f64::from_bits((gap << 52) | (next() & fraction_mask));
            for (x, y) in [(high, low), (-high, low), (low, -high)] {
                check(number(x).plus(number(y)), x + y, &format!("{:e} + {:e}", x, y));
            }
        }
    }
}

#[test]
fn hundredfold_agrees_with_the_machine_in_every_binade() {
    let mut state: u64 = 0xfeed_5eed_0bad_cafe;
    let fraction_mask: u64 = 0x000f_ffff_ffff_ffff;
    for exponent in 0u64..2047 {
        for round in 0..6 {
            state ^= state << 13;
            state ^= state >> 7;
            state ^= state << 17;
            let fraction = match round {
                0 => 0,
                1 => fraction_mask,
                _ => state & fraction_mask,
            };
            let x = f64::from_bits((exponent << 52) | fraction);
            check(number(x).hundredfold(), x * 100.0, &format!("{:e} * 100", x));
            check(number(-x).hundredfold(), -x * 100.0, &format!("{:e} * 100", -x));
            check(number(x).halve(), x / 2.0, &format!("{:e} / 2", x));
        }
    }
}
