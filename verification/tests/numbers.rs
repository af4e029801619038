use csv_aggregator::naive_float::{NaiveFloat, SIGN_BIT, TOLERANCE};
use float_cmp::{ApproxEqUlps, ApproxOrdUlps};
use std::cmp::Ordering;

fn num(x: f64) -> NaiveFloat {
    NaiveFloat::from_bits(x.to_bits())
}

fn up(x: f64, steps: u64) -> f64 {
    f64::from_bits(x.to_bits() + steps)
}

fn samples() -> Vec<f64> {
    let mut all = vec![
        0.0,
        -0.0,
        1.0,
        -1.0,
        2.0,
        -2.0,
        3.0,
        5.0,
        9.0,
        0.1,
        1e-300,
        -1e-300,
        1e300,
        -1e300,
        f64::MIN_POSITIVE,
        -f64::MIN_POSITIVE,
        f64::MAX,
        f64::MIN,
        f64::INFINITY,
        f64::NEG_INFINITY,
        f64::NAN,
        -f64::NAN,
        f64::EPSILON,
        1000000.0,
        1000000.0000000003,
    ];
    for bits in [1u64, 2, 3, 4, SIGN_BIT + 1, SIGN_BIT + 2, SIGN_BIT + 3, u64::MAX, u64::MAX - 2] {
        all.push(f64::from_bits(bits));
    }
    for base in [1.0f64, -1.0, 5.0, 1e300, f64::MIN_POSITIVE] {
        for steps in 1..=4u64 {
            all.push(up(base, steps));
        }
    }
    all
}

#[test]
fn numbers_keep_their_bits() {
    assert_eq!(num(1.5).to_bits(), 0x3FF8_0000_0000_0000);
    assert_eq!(NaiveFloat::from_bits(7).bits, 7);
    assert_eq!(num(-0.0).to_bits(), SIGN_BIT);
    assert_eq!(TOLERANCE, 2);
}

#[test]
fn order_agrees_with_the_ulps_order_of_floats() {
    for a in samples() {
        for b in samples() {
            assert_eq!(
                num(a).cmp(&num(b)),
                a.approx_cmp(&b, 2),
                "{:?} ({:#x}) against {:?} ({:#x})",
                a,
                a.to_bits(),
                b,
                b.to_bits()
            );
        }
    }
}

#[test]
fn equality_agrees_with_the_ulps_equality_of_floats() {
    for a in samples() {
        for b in samples() {
            assert_eq!(
                num(a) == num(b),
                a.approx_eq_ulps(&b, 2),
                "{:?} ({:#x}) against {:?} ({:#x})",
                a,
                a.to_bits(),
                b,
                b.to_bits()
            );
        }
    }
}

#[test]
fn partial_order_is_the_order() {
    for a in samples() {
        for b in samples() {
            assert_eq!(num(a).partial_cmp(&num(b)), Some(num(a).cmp(&num(b))));
        }
    }
}

#[test]
fn numbers_within_two_ulps_are_equal() {
    let x = 1.0f64;
    assert_eq!(num(x).cmp(&num(x)), Ordering::Equal);
    assert_eq!(num(x).cmp(&num(up(x, 1))), Ordering::Equal);
    assert_eq!(num(x).cmp(&num(up(x, 2))), Ordering::Equal);
    assert_eq!(num(up(x, 2)).cmp(&num(x)), Ordering::Equal);
    assert!(num(x) == num(up(x, 2)));
}

#[test]
fn numbers_beyond_two_ulps_are_ordered_by_value() {
    let x = 1.0f64;
    assert_eq!(num(x).cmp(&num(up(x, 3))), Ordering::Less);
    assert_eq!(num(up(x, 3)).cmp(&num(x)), Ordering::Greater);
    assert!(num(x) != num(up(x, 3)));
    assert_eq!(num(3.0).cmp(&num(5.0)), Ordering::Less);
    assert_eq!(num(9.0).cmp(&num(5.0)), Ordering::Greater);
    assert!(num(3.0) < num(5.0));
}

#[test]
fn negative_numbers_are_ordered_by_value_too() {
    assert_eq!(num(-1.0).cmp(&num(-2.0)), Ordering::Greater);
    assert_eq!(num(-2.0).cmp(&num(-1.0)), Ordering::Less);
    let x = -1.0f64;
    assert_eq!(num(x).cmp(&num(up(x, 2))), Ordering::Equal);
    assert_eq!(num(x).cmp(&num(up(x, 3))), Ordering::Greater);
}

#[test]
fn the_two_zeros_are_equal_and_signs_decide_otherwise() {
    assert_eq!(num(0.0).cmp(&num(-0.0)), Ordering::Equal);
    assert_eq!(num(-0.0).cmp(&num(0.0)), Ordering::Equal);
    let tiny = f64::from_bits(1);
    assert_eq!(num(tiny).cmp(&num(-tiny)), Ordering::Greater);
    assert_eq!(num(-tiny).cmp(&num(tiny)), Ordering::Less);
    assert_eq!(num(tiny).cmp(&num(0.0)), Ordering::Equal);
    assert_eq!(num(tiny).cmp(&num(-0.0)), Ordering::Greater);
}

#[test]
fn tolerance_is_not_transitive() {
    let a = 1.0f64;
    let b = up(a, 2);
    let c = up(a, 4);
    assert_eq!(num(a).cmp(&num(b)), Ordering::Equal);
    assert_eq!(num(b).cmp(&num(c)), Ordering::Equal);
    assert_eq!(num(a).cmp(&num(c)), Ordering::Less);
}

#[test]
fn swapping_reverses_the_order() {
    for a in samples() {
        for b in samples() {
            assert_eq!(num(a).cmp(&num(b)), num(b).cmp(&num(a)).reverse());
        }
    }
}
