use fletplus::float::{is_nan, rank, widen};
use fletplus::value::{float_partial_cmp, order_values, sort_order, values_equal, TypedValue};
use std::cmp::Ordering;

#[test]
fn widening_matches_the_cast() {
    let samples: [i64; 14] = [
        0,
        1,
        -1,
        2,
        12345,
        -987654321,
        9007199254740991,
        9007199254740993,
        9007199254740995,
        -9007199254740993,
        i64::MAX,
        i64::MIN,
        i64::MAX - 1023,
        (1 << 62) + (1 << 10),
    ];
    for i in samples {
        assert_eq!(widen(i), (i as f64).to_bits(), "{}", i);
    }
}

#[test]
fn nan_detection() {
    assert!(is_nan(f64::NAN.to_bits()));
    assert!(!is_nan(f64::INFINITY.to_bits()));
    assert!(!is_nan(1.5f64.to_bits()));
}

#[test]
fn rank_follows_the_number_line() {
    let xs = [f64::NEG_INFINITY, -2.5, -0.0, 0.0, 1e-300, 1.0, 3.5, f64::INFINITY];
    for w in xs.windows(2) {
        assert!(rank(w[0].to_bits()) <= rank(w[1].to_bits()));
    }
    assert_eq!(rank((-0.0f64).to_bits()), rank(0.0f64.to_bits()));
    assert_eq!(float_partial_cmp(1.0f64.to_bits(), 2.0f64.to_bits()), Some(Ordering::Less));
    assert_eq!(float_partial_cmp(f64::NAN.to_bits(), 2.0f64.to_bits()), None);
}

#[test]
fn value_equality_table() {
    let t = |s: &str| TypedValue::Text(s.to_string());
    assert!(values_equal(&TypedValue::Absent, &TypedValue::Absent));
    assert!(!values_equal(&TypedValue::Absent, &TypedValue::Integer(0)));
    assert!(values_equal(&t("a"), &t("a")));
    assert!(!values_equal(&t("a"), &t("A")));
    assert!(values_equal(&TypedValue::Float(2.0f64.to_bits()), &TypedValue::Integer(2)));
    assert!(!values_equal(&TypedValue::Boolean(false), &TypedValue::Integer(0)));
}

#[test]
fn value_ordering_table() {
    let t = |s: &str| TypedValue::Text(s.to_string());
    assert_eq!(order_values(&t("abc"), &t("abd")), Some(Ordering::Less));
    assert_eq!(order_values(&t("b"), &t("abc")), Some(Ordering::Greater));
    assert_eq!(order_values(&TypedValue::Integer(3), &TypedValue::Float(2.5f64.to_bits())), Some(Ordering::Greater));
    assert_eq!(order_values(&TypedValue::Absent, &TypedValue::Integer(1)), None);
    assert_eq!(order_values(&t("1"), &TypedValue::Integer(1)), None);
}

#[test]
fn sort_order_table() {
    let t = |s: &str| TypedValue::Text(s.to_string());
    assert_eq!(sort_order(&TypedValue::Absent, &TypedValue::Absent), Ordering::Equal);
    assert_eq!(sort_order(&TypedValue::Absent, &t("a")), Ordering::Greater);
    assert_eq!(sort_order(&TypedValue::Integer(5), &TypedValue::Absent), Ordering::Less);
    assert_eq!(sort_order(&TypedValue::Boolean(true), &t("a")), Ordering::Less);
    assert_eq!(sort_order(&TypedValue::Integer(1), &TypedValue::Float(9.0f64.to_bits())), Ordering::Greater);
    assert_eq!(sort_order(&t("b"), &t("a")), Ordering::Greater);
    assert_eq!(sort_order(&TypedValue::Boolean(false), &TypedValue::Boolean(true)), Ordering::Less);
}
