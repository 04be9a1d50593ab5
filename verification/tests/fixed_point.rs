//! Unit tests for the fixed-point scalar and vector helpers.

use boids::fx::{fx_div, fx_mul, isqrt, t_div};
use boids::vector::{Vector, Vertex};

const SCALE: i128 = 10_000;

#[test]
fn fixed_point_products_truncate_toward_zero() {
    // 2.0 * 0.5 = 1.0
    assert_eq!(fx_mul(2 * SCALE, SCALE / 2), SCALE);
    // 0.0001 * 0.0001 truncates to zero.
    assert_eq!(fx_mul(1, 1), 0);
    // (-3.0) * 0.5 = -1.5
    assert_eq!(fx_mul(-3 * SCALE, SCALE / 2), -15_000);
    // 1.0 / 3.0 = 0.3333
    assert_eq!(fx_div(SCALE, 3 * SCALE), 3_333);
    // (-1.0) / 3.0 truncates toward zero, not toward negative infinity.
    assert_eq!(fx_div(-SCALE, 3 * SCALE), -3_333);
    assert_eq!(t_div(-7, 2), -3);
    assert_eq!(t_div(7, 2), 3);
}

#[test]
fn integer_square_roots_are_floors() {
    assert_eq!(isqrt(0), 0);
    assert_eq!(isqrt(1), 1);
    assert_eq!(isqrt(2), 1);
    assert_eq!(isqrt(99_999_999), 9_999);
    assert_eq!(isqrt(100_000_000), 10_000);
    assert_eq!(isqrt(2 * 100_000_000), 14_142);
}

#[test]
fn vector_magnitude_and_normalize() {
    // A 3-4-5 triangle at fixed-point scale.
    let v = Vector::new(3 * SCALE, 4 * SCALE);
    assert_eq!(v.magnitude(), 5 * SCALE);
    let u = v.normalize();
    assert_eq!(u, Vector::new(6_000, 8_000));
    // The orthogonal vector is the 90-degree rotation.
    assert_eq!(u.orthogonal(), Vector::new(-8_000, 6_000));
}

#[test]
fn vector_arithmetic_is_componentwise() {
    let a = Vector::new(3, 5);
    let b = Vector::new(10, -2);
    assert_eq!(a.plus(b), Vector::new(13, 3));
    assert_eq!(a.minus(b), Vector::new(-7, 7));
    assert_eq!(Vector::new(2 * SCALE, -SCALE).scaled(3 * SCALE), Vector::new(6 * SCALE, -3 * SCALE));
    assert_eq!(Vector::zero(), Vector::new(0, 0));
}

#[test]
fn clip_space_mapping_matches_the_formula() {
    // The viewport center maps to the clip-space origin.
    let center = Vector::new(50 * SCALE, 50 * SCALE);
    assert_eq!(center.map(100, 100), Vertex { x: 0, y: 0 });
    // The bottom-right pixel corner maps to (1, -1): vertical flip.
    let corner = Vector::new(100 * SCALE, 100 * SCALE);
    assert_eq!(corner.map(100, 100), Vertex { x: SCALE, y: -SCALE });
}
