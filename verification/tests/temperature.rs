use uni_sync_curve::temperature::Celsius;

fn c(t: f64) -> Celsius {
    Celsius(t.to_bits())
}

#[test]
fn order_key_follows_float_order() {
    let values = [
        f64::NEG_INFINITY,
        -1e300,
        -40.5,
        -1.0,
        -f64::MIN_POSITIVE,
        0.0,
        f64::MIN_POSITIVE,
        0.5,
        30.0,
        30.000001,
        1e300,
        f64::INFINITY,
    ];
    for a in values {
        for b in values {
            assert_eq!(a < b, c(a).order_key() < c(b).order_key());
            assert_eq!(a == b, c(a).order_key() == c(b).order_key());
        }
    }
}

#[test]
fn signed_zeros_are_equal() {
    assert_eq!(c(-0.0).order_key(), c(0.0).order_key());
    assert_eq!(c(0.0).order_key(), 0);
}

#[test]
fn nan_is_recognised() {
    assert!(c(f64::NAN).is_nan());
    assert!(c(-f64::NAN).is_nan());
    assert!(!c(f64::INFINITY).is_nan());
    assert!(!c(f64::NEG_INFINITY).is_nan());
    assert!(!c(12.5).is_nan());
}
