//! Tests and roundings on bit patterns, held against floating point.

use backdrop_render::backdrop::{rect_is_ordered, rect_to_roi, Rect};
use backdrop_render::float_bits::{
    f32_is_near_one, f32_is_near_zero, f64_nan, f64_rounded_clamped,
};

fn rect(x0: f64, y0: f64, x1: f64, y1: f64) -> Rect {
    Rect { x0: x0.to_bits(), y0: y0.to_bits(), x1: x1.to_bits(), y1: y1.to_bits() }
}

#[test]
fn near_one_is_within_epsilon() {
    let values = [
        1.0f32,
        1.0 + f32::EPSILON,
        1.0 + 2.0 * f32::EPSILON,
        1.0 - f32::EPSILON,
        1.0 - 2.0 * f32::EPSILON,
        1.0 - 1.5 * f32::EPSILON,
        0.999,
        -1.0,
        0.0,
        f32::NAN,
        f32::INFINITY,
    ];
    for value in values {
        let expected = (value - 1.0).abs() <= f32::EPSILON;
        assert_eq!(f32_is_near_one(value.to_bits()), expected);
    }
}

#[test]
fn near_zero_is_within_epsilon() {
    let values = [
        0.0f32,
        -0.0,
        f32::EPSILON,
        -f32::EPSILON,
        2.0 * f32::EPSILON,
        f32::MIN_POSITIVE,
        1.0e-45,
        -0.5,
        f32::NAN,
        f32::NEG_INFINITY,
    ];
    for value in values {
        let expected = value.abs() <= f32::EPSILON;
        assert_eq!(f32_is_near_zero(value.to_bits()), expected);
    }
}

#[test]
fn rounding_agrees_with_floating_point() {
    let values = [
        0.0f64,
        -0.0,
        0.25,
        0.5,
        1.0,
        1.5,
        2.999_999,
        99.0,
        99.01,
        100.0,
        100.5,
        -0.5,
        -7.25,
        4_294_967_294.5,
        4_294_967_295.0,
        4_294_967_296.0,
        1.0e300,
        -1.0e300,
        5.0e-324,
        -5.0e-324,
        f64::INFINITY,
        f64::NEG_INFINITY,
    ];
    for limit in [0u32, 1, 100, u32::MAX] {
        for value in values {
            let down = value.floor().clamp(0.0, limit as f64) as u32;
            let up = value.ceil().clamp(0.0, limit as f64) as u32;
            assert_eq!(f64_rounded_clamped(value.to_bits(), false, limit), down);
            assert_eq!(f64_rounded_clamped(value.to_bits(), true, limit), up);
        }
    }
}

#[test]
fn nan_patterns() {
    assert!(f64_nan(f64::NAN.to_bits()));
    assert!(f64_nan(0x7ff0_0000_0000_0001));
    assert!(!f64_nan(f64::INFINITY.to_bits()));
    assert!(!f64_nan(0));
}

#[test]
fn roi_of_a_rectangle_inside() {
    assert_eq!(rect_to_roi(rect(1.25, 2.5, 3.5, 6.0), 100, 50), Some([1, 2, 3, 4]));
}

#[test]
fn roi_is_cut_to_the_frame() {
    assert_eq!(rect_to_roi(rect(-5.0, -5.0, 5.5, 500.0), 100, 50), Some([0, 0, 6, 50]));
    assert_eq!(
        rect_to_roi(rect(f64::NEG_INFINITY, 0.0, f64::INFINITY, 1.0), 100, 50),
        Some([0, 0, 100, 1])
    );
}

#[test]
fn roi_of_a_rectangle_outside_is_none() {
    assert_eq!(rect_to_roi(rect(100.0, 0.0, 120.0, 10.0), 100, 50), None);
    assert_eq!(rect_to_roi(rect(0.0, -10.0, 10.0, 0.0), 100, 50), None);
    assert_eq!(rect_to_roi(rect(3.0, 0.0, 3.0, 10.0), 100, 50), None);
    assert_eq!(rect_to_roi(rect(0.0, 0.0, 10.0, 10.0), 0, 50), None);
}

#[test]
fn roi_takes_a_nan_for_zero() {
    assert_eq!(rect_to_roi(rect(f64::NAN, 0.0, 4.0, 4.0), 10, 10), Some([0, 0, 4, 4]));
    assert_eq!(rect_to_roi(rect(0.0, 0.0, f64::NAN, 4.0), 10, 10), Some([0, 0, 0, 4]));
    assert!(rect_is_ordered(rect(0.0, 0.0, f64::NAN, 4.0), 10, 10));
    assert!(!rect_is_ordered(rect(2.0, 0.0, f64::NAN, 4.0), 10, 10));
    assert!(rect_is_ordered(rect(2.0, 0.0, f64::NAN, 0.0), 10, 10));
}

#[test]
fn roi_holds_the_pixels_that_the_rectangle_reaches_into() {
    let (x0, x1) = (2.5f64, 6.25f64);
    let roi = rect_to_roi(rect(x0, 0.0, x1, 1.0), 10, 10).unwrap();
    for pixel in 0..10u32 {
        let touched = x0 < (pixel + 1) as f64 && (pixel as f64) < x1;
        assert_eq!(roi[0] <= pixel && pixel < roi[0] + roi[2], touched);
    }
}
