use fisdef::quantity::{
    Quantity, CENTURY, DAY, HOUR, HUNDRED, INFINITY_BITS, MICRO, MILLI, MINUS_ONE, MINUTE, NANO,
    ONE, TEN, YEAR, ZERO,
};

fn q(x: f32) -> Quantity {
    Quantity::from_bits(x.to_bits()).unwrap()
}

fn samples() -> Vec<f32> {
    vec![
        f32::NEG_INFINITY,
        -3.0e38,
        -1173.2,
        -1.0,
        -1.0e-9,
        -f32::MIN_POSITIVE,
        -1.0e-45,
        -0.0,
        0.0,
        1.0e-45,
        f32::MIN_POSITIVE,
        1.0e-9,
        0.001,
        0.5,
        1.0,
        9.999999,
        10.0,
        99.85,
        99.98,
        100.0,
        120.5,
        1173.2,
        1332.5,
        3.0e38,
        f32::INFINITY,
    ]
}

#[test]
fn nan_is_not_a_quantity() {
    assert!(Quantity::from_bits(f32::NAN.to_bits()).is_none());
    assert!(Quantity::from_bits((-f32::NAN).to_bits()).is_none());
    assert!(Quantity::from_bits(0x7f80_0001).is_none());
    assert!(Quantity::from_bits(0xffff_ffff).is_none());
    assert!(Quantity::from_bits(1.5f32.to_bits()).is_some());
}

#[test]
fn infinities_are_quantities() {
    assert!(Quantity::from_bits(f32::INFINITY.to_bits()).is_some());
    assert!(Quantity::from_bits(f32::NEG_INFINITY.to_bits()).is_some());
    assert_eq!(INFINITY_BITS, f32::INFINITY.to_bits());
}

#[test]
fn bits_round_trip() {
    for x in samples() {
        assert_eq!(q(x).to_bits(), x.to_bits());
    }
}

#[test]
fn constants_are_the_numbers_they_name() {
    assert_eq!(ZERO, 0.0f32.to_bits());
    assert_eq!(MINUS_ONE, (-1.0f32).to_bits());
    assert_eq!(NANO, 1e-9f32.to_bits());
    assert_eq!(MICRO, 1e-6f32.to_bits());
    assert_eq!(MILLI, 1e-3f32.to_bits());
    assert_eq!(MILLI, 0.001f32.to_bits());
    assert_eq!(ONE, 1.0f32.to_bits());
    assert_eq!(TEN, 10.0f32.to_bits());
    assert_eq!(HUNDRED, 100.0f32.to_bits());
    let minute: f32 = 60.0;
    let hour: f32 = 60.0 * minute;
    let day: f32 = 24.0 * hour;
    let year: f32 = 365.0 * day;
    assert_eq!(MINUTE, minute.to_bits());
    assert_eq!(HOUR, hour.to_bits());
    assert_eq!(DAY, day.to_bits());
    assert_eq!(YEAR, year.to_bits());
    assert_eq!(CENTURY, (100.0 * year).to_bits());
}

#[test]
fn order_key_orders_as_the_numbers_do() {
    let all = samples();
    for &a in &all {
        for &b in &all {
            assert_eq!(q(a).order_key() < q(b).order_key(), a < b, "{a} < {b}");
            assert_eq!(q(a).order_key() == q(b).order_key(), a == b, "{a} == {b}");
        }
    }
}

#[test]
fn same_is_numeric_equality() {
    let all = samples();
    for &a in &all {
        for &b in &all {
            assert_eq!(q(a).same(&q(b)), a == b, "{a} == {b}");
        }
    }
    assert!(q(0.0).same(&q(-0.0)));
}

#[test]
fn exceeds_is_greater_than() {
    let all = samples();
    for &a in &all {
        for &b in &all {
            assert_eq!(q(a).exceeds(&q(b)), a > b, "{a} > {b}");
        }
    }
}

#[test]
fn at_least_is_greater_or_equal() {
    let all = samples();
    for &a in &all {
        for &b in &all {
            assert_eq!(q(a).at_least(b.to_bits()), a >= b, "{a} >= {b}");
        }
    }
}

#[test]
fn zero_of_either_sign_is_zero() {
    assert!(q(0.0).is_zero());
    assert!(q(-0.0).is_zero());
    assert!(!q(1.0e-45).is_zero());
    assert!(!q(-1.0).is_zero());
    assert_eq!(q(0.0).order_key(), 0);
    assert_eq!(q(-0.0).order_key(), 0);
}

#[test]
fn order_key_exact_values() {
    assert_eq!(q(1.0).order_key(), 0x3f80_0000);
    assert_eq!(q(-1.0).order_key(), -0x3f80_0000);
    assert_eq!(q(f32::INFINITY).order_key(), 0x7f80_0000);
    assert_eq!(q(f32::NEG_INFINITY).order_key(), -0x7f80_0000);
}
