use erock::arith::{apply, apply_lanes, canonicalize, is_nan_bits, is_zero_bits, settle, Operator, NAN, ZERO};

fn b(value: f64) -> u64 {
    value.to_bits()
}

#[test]
fn the_four_operators_compute() {
    assert_eq!(apply(Operator::Plus, b(1.5), b(2.25)), b(3.75));
    assert_eq!(apply(Operator::Minus, b(1.5), b(2.25)), b(-0.75));
    assert_eq!(apply(Operator::Star, b(1.5), b(2.0)), b(3.0));
    assert_eq!(apply(Operator::Slash, b(1.0), b(8.0)), b(0.125));
    assert_eq!(apply(Operator::Plus, b(0.1), b(0.2)), b(0.1 + 0.2));
    assert_eq!(apply(Operator::Slash, b(1.0), b(3.0)), b(1.0 / 3.0));
}

#[test]
fn operands_are_not_swapped() {
    assert_eq!(apply(Operator::Minus, b(5.0), b(3.0)), b(2.0));
    assert_eq!(apply(Operator::Slash, b(6.0), b(3.0)), b(2.0));
}

#[test]
fn division_by_either_zero_is_not_a_number() {
    assert_eq!(apply(Operator::Slash, b(1.0), b(0.0)), NAN);
    assert_eq!(apply(Operator::Slash, b(1.0), b(-0.0)), NAN);
    assert_eq!(apply(Operator::Slash, b(0.0), b(0.0)), NAN);
    assert_eq!(apply(Operator::Slash, b(1.0), b(f64::MIN_POSITIVE)), b(1.0 / f64::MIN_POSITIVE));
}

#[test]
fn results_that_are_no_number_have_one_pattern() {
    assert_eq!(apply(Operator::Minus, b(f64::INFINITY), b(f64::INFINITY)), NAN);
    assert_eq!(apply(Operator::Star, b(0.0), b(f64::INFINITY)), NAN);
    assert_eq!(apply(Operator::Plus, 0xfff0_0000_0000_0001, b(1.0)), NAN);
    assert_eq!(apply(Operator::Slash, b(f64::INFINITY), b(f64::NEG_INFINITY)), NAN);
}

#[test]
fn overflow_gives_infinity() {
    assert_eq!(apply(Operator::Star, b(f64::MAX), b(2.0)), b(f64::INFINITY));
    assert_eq!(apply(Operator::Minus, b(-f64::MAX), b(f64::MAX)), b(f64::NEG_INFINITY));
}

#[test]
fn lanes_do_not_mix() {
    let l = [b(1.0), b(2.0), b(3.0), b(4.0)];
    let r = [b(10.0), b(0.0), b(-3.0), b(0.5)];
    assert_eq!(apply_lanes(Operator::Plus, &l, &r), [b(11.0), b(2.0), b(0.0), b(4.5)]);
    assert_eq!(apply_lanes(Operator::Minus, &l, &r), [b(-9.0), b(2.0), b(6.0), b(3.5)]);
    assert_eq!(apply_lanes(Operator::Star, &l, &r), [b(10.0), b(0.0), b(-9.0), b(2.0)]);
    assert_eq!(apply_lanes(Operator::Slash, &l, &r), [b(0.1), NAN, b(-1.0), b(8.0)]);
}

#[test]
fn patterns_are_told_apart() {
    assert!(is_nan_bits(NAN));
    assert!(is_nan_bits(b(f64::NAN)));
    assert!(is_nan_bits(0xfff8_0000_0000_0000));
    assert!(is_nan_bits(0x7ff0_0000_0000_0001));
    assert!(!is_nan_bits(b(f64::INFINITY)));
    assert!(!is_nan_bits(b(f64::NEG_INFINITY)));
    assert!(!is_nan_bits(b(1.0)));
    assert!(is_zero_bits(ZERO));
    assert!(is_zero_bits(b(-0.0)));
    assert!(!is_zero_bits(b(f64::MIN_POSITIVE)));
    assert!(!is_zero_bits(1));
    assert_eq!(f64::from_bits(ZERO), 0.0);
    assert!(f64::from_bits(NAN).is_nan());
}

#[test]
fn canonicalize_touches_only_what_is_no_number() {
    assert_eq!(canonicalize(0xfff8_0000_0000_0123), NAN);
    assert_eq!(canonicalize(NAN), NAN);
    assert_eq!(canonicalize(b(-2.5)), b(-2.5));
    assert_eq!(canonicalize(b(f64::NEG_INFINITY)), b(f64::NEG_INFINITY));
    assert_eq!(canonicalize(b(-0.0)), b(-0.0));
}

#[test]
fn settle_guards_only_division() {
    assert_eq!(settle(Operator::Slash, b(0.0), b(f64::INFINITY)), NAN);
    assert_eq!(settle(Operator::Slash, b(2.0), b(0.5)), b(0.5));
    assert_eq!(settle(Operator::Star, b(0.0), b(0.0)), b(0.0));
    assert_eq!(settle(Operator::Plus, b(0.0), 0xfff8_0000_0000_0000), NAN);
}
