//! The comparable-value total order on concrete inputs.

use spp_experiments::CmpValue;
use spp_experiments::Inner;

fn val(x: f64) -> CmpValue {
    CmpValue::new(x.to_bits())
}

fn raw(v: CmpValue) -> f64 {
    f64::from_bits(v.inner())
}

#[test]
fn zeros_compare_equal() {
    assert_eq!(val(0.0), val(-0.0));
    assert!(!(val(0.0) < val(-0.0)));
    assert!(!(val(-0.0) < val(0.0)));
}

#[test]
fn nans_compare_equal() {
    let a = val(f64::NAN);
    let b = CmpValue::new(0x7ff0_0000_0000_0001);
    let c = CmpValue::new(0xfff8_0000_0000_0000);
    assert_eq!(a, b);
    assert_eq!(a, c);
    assert_eq!(b, c);
}

#[test]
fn nan_above_everything() {
    assert!(val(f64::INFINITY) < val(f64::NAN));
    assert!(val(1e308) < val(f64::NAN));
    assert!(val(f64::NEG_INFINITY) < val(f64::NAN));
}

#[test]
fn numeric_order_kept() {
    assert!(val(f64::NEG_INFINITY) < val(-2.0));
    assert!(val(-2.0) < val(-0.5));
    assert!(val(-0.5) < val(-0.0));
    assert!(val(0.0) < val(3.5));
    assert!(val(3.5) < val(f64::INFINITY));
}

#[test]
fn inner_roundtrip() {
    assert_eq!(raw(val(3.5)), 3.5);
    assert_eq!(raw(val(-2.25)), -2.25);
    assert_eq!(raw(val(0.0)), 0.0);
}

#[test]
fn inner_preserves_zero_sign() {
    assert_eq!(val(-0.0).inner(), (-0.0f64).to_bits());
    assert_eq!(val(0.0).inner(), 0.0f64.to_bits());
}

#[test]
fn inner_preserves_nan_payload() {
    assert_eq!(CmpValue::new(0xfff0_0000_0000_0001).inner(), 0xfff0_0000_0000_0001);
    assert_eq!(CmpValue::new(0x7ff0_0000_0000_0099).inner(), 0x7ff0_0000_0000_0099);
}

#[test]
fn equal_values_may_wrap_distinct_patterns() {
    let pos = val(0.0);
    let neg = val(-0.0);
    assert_eq!(pos, neg);
    assert_ne!(pos.inner(), neg.inner());
}

#[test]
fn create_via_trait() {
    let v = <CmpValue as Inner>::create(2.0f64.to_bits());
    assert_eq!(raw(v), 2.0);
}

#[test]
fn comparison_is_total_on_mixed_inputs() {
    let ordered = [
        val(f64::NEG_INFINITY),
        val(-1.5),
        val(0.0),
        val(2.5),
        val(f64::INFINITY),
        val(f64::NAN),
    ];
    for pair in ordered.windows(2) {
        assert!(pair[0] < pair[1]);
        assert!(pair[1] > pair[0]);
        assert!(pair[0] != pair[1]);
    }
}
