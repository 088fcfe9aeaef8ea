use silero_rs::probability::{
    bits_are_nan, bits_are_probability, is_voice, key_of, INFINITY_BITS, ONE_BITS, SIGN_BIT,
};

fn sample_values() -> Vec<f32> {
    vec![
        0.0,
        -0.0,
        f32::MIN_POSITIVE,
        -f32::MIN_POSITIVE,
        f32::from_bits(1),
        f32::from_bits(SIGN_BIT | 1),
        0.1,
        0.25,
        0.49999997,
        0.5,
        0.50000006,
        0.75,
        0.99999994,
        1.0,
        1.0000001,
        -0.5,
        -1.0,
        3.5,
        -3.5,
        f32::MAX,
        f32::MIN,
        f32::INFINITY,
        f32::NEG_INFINITY,
        f32::NAN,
        -f32::NAN,
        f32::from_bits(0x7f80_0001),
        f32::from_bits(0xffff_ffff),
    ]
}

#[test]
fn the_rule_is_the_comparison_of_the_numbers() {
    let values = sample_values();
    for p in values.iter() {
        for t in values.iter() {
            assert_eq!(
                is_voice(p.to_bits(), t.to_bits()),
                *p >= *t,
                "probability {:?}, threshold {:?}",
                p,
                t
            );
        }
    }
}

#[test]
fn a_probability_equal_to_the_threshold_is_voice() {
    assert!(is_voice(0.5f32.to_bits(), 0.5f32.to_bits()));
    assert!(is_voice(0.0f32.to_bits(), 0.0f32.to_bits()));
    assert!(is_voice(1.0f32.to_bits(), 1.0f32.to_bits()));
    assert!(is_voice(0.35f32.to_bits(), 0.35f32.to_bits()));
}

#[test]
fn the_nearest_number_below_the_threshold_is_not_voice() {
    let threshold = 0.5f32;
    let below = f32::from_bits(threshold.to_bits() - 1);
    let above = f32::from_bits(threshold.to_bits() + 1);
    assert!(!is_voice(below.to_bits(), threshold.to_bits()));
    assert!(is_voice(above.to_bits(), threshold.to_bits()));
}

#[test]
fn what_is_not_a_number_is_never_voice() {
    assert!(!is_voice(f32::NAN.to_bits(), 0.5f32.to_bits()));
    assert!(!is_voice(0.9f32.to_bits(), f32::NAN.to_bits()));
    assert!(!is_voice(f32::NAN.to_bits(), f32::NAN.to_bits()));
}

#[test]
fn nan_patterns_are_told_apart_from_numbers() {
    for value in sample_values() {
        assert_eq!(bits_are_nan(value.to_bits()), value.is_nan(), "{:?}", value);
    }
    assert!(!bits_are_nan(INFINITY_BITS));
    assert!(bits_are_nan(INFINITY_BITS + 1));
    assert!(!bits_are_nan(SIGN_BIT | INFINITY_BITS));
    assert!(bits_are_nan((SIGN_BIT | INFINITY_BITS) + 1));
}

#[test]
fn keys_have_exact_values() {
    assert_eq!(key_of(0), 0);
    assert_eq!(key_of(SIGN_BIT), 0);
    assert_eq!(key_of(1), 1);
    assert_eq!(key_of(SIGN_BIT + 1), -1);
    assert_eq!(key_of(0.5f32.to_bits()), 0x3f00_0000);
    assert_eq!(key_of((-0.5f32).to_bits()), -0x3f00_0000);
    assert_eq!(key_of(u32::MAX), -0x7fff_ffff);
}

#[test]
fn keys_order_numbers_as_the_numbers_are_ordered() {
    let values: Vec<f32> = sample_values().into_iter().filter(|v| !v.is_nan()).collect();
    for a in values.iter() {
        for b in values.iter() {
            assert_eq!(key_of(a.to_bits()) < key_of(b.to_bits()), a < b, "{:?} {:?}", a, b);
            assert_eq!(key_of(a.to_bits()) == key_of(b.to_bits()), a == b, "{:?} {:?}", a, b);
        }
    }
}

#[test]
fn probabilities_are_the_numbers_from_zero_to_one() {
    for value in sample_values() {
        assert_eq!(
            bits_are_probability(value.to_bits()),
            0.0 <= value && value <= 1.0,
            "{:?}",
            value
        );
    }
    assert_eq!(ONE_BITS, 1.0f32.to_bits());
    assert!(bits_are_probability(0));
    assert!(bits_are_probability(SIGN_BIT));
    assert!(bits_are_probability(ONE_BITS));
    assert!(!bits_are_probability(ONE_BITS + 1));
    assert!(!bits_are_probability(SIGN_BIT + 1));
    assert!(!bits_are_probability(u32::MAX));
}
