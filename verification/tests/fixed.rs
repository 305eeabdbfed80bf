//! Tests for the fixed-point arithmetic helpers.

use lrle::fixed::{clamp01, fixed_div, isqrt, normalize_dir, scale_mul, FixedVec3, SCALE};

#[test]
fn test_clamp_unit_interval() {
    assert_eq!(clamp01(-5), 0);
    assert_eq!(clamp01(0), 0);
    assert_eq!(clamp01(123_456), 123_456);
    assert_eq!(clamp01(SCALE), SCALE);
    assert_eq!(clamp01(SCALE + 1), SCALE);
}

#[test]
fn test_scale_mul_exact() {
    assert_eq!(scale_mul(1_500_000, 2_000_000), 3_000_000);
    assert_eq!(scale_mul(0, 123), 0);
}

#[test]
fn test_scale_mul_truncates_toward_zero() {
    // -1.5 * 0.000333 = -0.0004995: truncation gives -499, not -500.
    assert_eq!(scale_mul(-1_500_000, 333), -499);
    assert_eq!(scale_mul(1_500_000, 333), 499);
}

#[test]
fn test_fixed_div_exact() {
    assert_eq!(fixed_div(1_000_000, 3_000_000), 333_333);
    assert_eq!(fixed_div(-1_000_000, 3_000_000), -333_333);
    assert_eq!(fixed_div(1_000_000, -3_000_000), -333_333);
}

#[test]
fn test_isqrt_values() {
    assert_eq!(isqrt(0), 0);
    assert_eq!(isqrt(1), 1);
    assert_eq!(isqrt(15), 3);
    assert_eq!(isqrt(16), 4);
    assert_eq!(isqrt(1_000_000_000_000), 1_000_000);
    assert_eq!(isqrt(u128::MAX), u64::MAX);
}

#[test]
fn test_normalize_dir_axis() {
    let n = normalize_dir(FixedVec3 { x: 0, y: 7_000_000, z: 0 });
    assert_eq!((n.x, n.y, n.z), (0, 1_000_000, 0));
}

#[test]
fn test_normalize_dir_diagonal() {
    let n = normalize_dir(FixedVec3 { x: 3_000_000, y: 4_000_000, z: 0 });
    assert_eq!((n.x, n.y, n.z), (600_000, 800_000, 0));
}

#[test]
fn test_normalize_dir_zero_stays_zero() {
    let n = normalize_dir(FixedVec3 { x: 0, y: 0, z: 0 });
    assert_eq!((n.x, n.y, n.z), (0, 0, 0));
}
