//! Tests for the orbital camera. Lengths are micro-units, angles
//! micro-degrees, and the trigonometric values of the angles are passed
//! in as fixed-point numbers.

use lrle::camera::{AngleTrig, Camera, ProjectionMode};
use lrle::fixed::FixedVec3;

fn trig_of_degrees(azimuth: f64, elevation: f64) -> AngleTrig {
    let az = azimuth.to_radians();
    let el = elevation.to_radians();
    AngleTrig {
        sin_azimuth: (az.sin() * 1_000_000.0).round() as i64,
        cos_azimuth: (az.cos() * 1_000_000.0).round() as i64,
        sin_elevation: (el.sin() * 1_000_000.0).round() as i64,
        cos_elevation: (el.cos() * 1_000_000.0).round() as i64,
    }
}

#[test]
fn test_camera_default() {
    let camera = Camera::new();
    assert_eq!(camera.distance, 50_000_000);
    assert_eq!(camera.target, FixedVec3 { x: 0, y: 0, z: 0 });
    assert_eq!(camera.fov, 60_000_000);
    assert_eq!(camera.azimuth, 45_000_000);
    assert_eq!(camera.elevation, 30_000_000);
    assert_eq!(camera.projection_mode, ProjectionMode::Perspective);
}

#[test]
fn test_camera_position_at_zero_angles() {
    let mut camera = Camera::new();
    camera.distance = 10_000_000;
    camera.azimuth = 0;
    camera.elevation = 0;

    let pos = camera.position(&trig_of_degrees(0.0, 0.0));

    // At azimuth=0, elevation=0, the camera sits on the +Z axis.
    assert!(pos.x.abs() < 1_000);
    assert!(pos.y.abs() < 1_000);
    assert!((pos.z - 10_000_000).abs() < 1_000);
}

#[test]
fn test_camera_position_at_90_azimuth() {
    let mut camera = Camera::new();
    camera.distance = 10_000_000;
    camera.azimuth = 90_000_000;
    camera.elevation = 0;

    let pos = camera.position(&trig_of_degrees(90.0, 0.0));

    // At azimuth=90 degrees, the camera sits on the +X axis.
    assert!((pos.x - 10_000_000).abs() < 1_000);
    assert!(pos.y.abs() < 1_000);
    assert!(pos.z.abs() < 1_000);
}

#[test]
fn test_view_projection_matrix_valid() {
    let camera = Camera::new();
    let trig = trig_of_degrees(45.0, 30.0);
    // Aspect 1.0; tan of half the 60 degree field of view.
    let tan_half_fov = ((30.0f64).to_radians().tan() * 1_000_000.0).round() as i64;
    let vp = camera.build_view_projection_matrix(&trig, 1_000_000, tan_half_fov);

    let m: Vec<f64> = vp.m.iter().map(|&e| e as f64 / 1_000_000.0).collect();
    let det3 = |a: f64, b: f64, c: f64, d: f64, e: f64, f: f64, g: f64, h: f64, i: f64| {
        a * (e * i - f * h) - b * (d * i - f * g) + c * (d * h - e * g)
    };
    let det = m[0] * det3(m[5], m[6], m[7], m[9], m[10], m[11], m[13], m[14], m[15])
        - m[1] * det3(m[4], m[6], m[7], m[8], m[10], m[11], m[12], m[14], m[15])
        + m[2] * det3(m[4], m[5], m[7], m[8], m[9], m[11], m[12], m[13], m[15])
        - m[3] * det3(m[4], m[5], m[6], m[8], m[9], m[10], m[12], m[13], m[14]);

    // The transform must be non-singular.
    assert!(det.abs() > 0.0001);
}

#[test]
fn test_camera_with_offset_target() {
    let mut camera = Camera::new();
    camera.distance = 10_000_000;
    camera.azimuth = 0;
    camera.elevation = 0;
    camera.target = FixedVec3 { x: 5_000_000, y: 0, z: 0 };

    let pos = camera.position(&trig_of_degrees(0.0, 0.0));

    assert!((pos.x - 5_000_000).abs() < 1_000);
    assert!((pos.z - 10_000_000).abs() < 1_000);
}

#[test]
fn test_set_isometric() {
    let mut camera = Camera::new();
    camera.set_isometric();

    assert_eq!(camera.projection_mode, ProjectionMode::Orthographic);
    // 45 degrees, and atan(1/sqrt(2)), about 35.264 degrees.
    assert_eq!(camera.azimuth, 45_000_000);
    assert_eq!(camera.elevation, 35_264_390);
    // The rest of the state is untouched.
    assert_eq!(camera.distance, 50_000_000);
    assert_eq!(camera.fov, 60_000_000);
}

#[test]
fn test_orthographic_projection_entries() {
    let mut camera = Camera::new();
    camera.projection_mode = ProjectionMode::Orthographic;
    camera.distance = 10_000_000;
    camera.near = 1_000_000;
    camera.far = 3_000_000;

    // Aspect 2.0: half-height is distance/2 = 5, half-width 10.
    let p = camera.build_projection_matrix(2_000_000, 1_000_000);
    assert_eq!(p.m[0], 100_000); // 1 / half_width = 0.1
    assert_eq!(p.m[5], 200_000); // 1 / half_height = 0.2
    assert_eq!(p.m[10], -500_000); // -1 / (far - near)
    assert_eq!(p.m[11], -500_000); // -near / (far - near)
    assert_eq!(p.m[15], 1_000_000);
    assert_eq!(p.m[14], 0);
}

#[test]
fn test_perspective_projection_entries() {
    let camera = Camera::new();
    // Aspect 1.0 and the tangent of half of 60 degrees: 0.57735.
    let p = camera.build_projection_matrix(1_000_000, 577_350);
    assert_eq!(p.m[0], 1_732_051); // 1 / tan(30 deg)
    assert_eq!(p.m[5], 1_732_051);
    assert_eq!(p.m[10], -1_000_100); // -far / (far - near), near 0.1, far 1000
    assert_eq!(p.m[11], -100_010); // -far * near / (far - near)
    assert_eq!(p.m[14], -1_000_000);
    assert_eq!(p.m[15], 0);
}

#[test]
fn test_view_matrix_at_zero_angles() {
    let mut camera = Camera::new();
    camera.distance = 10_000_000;
    camera.azimuth = 0;
    camera.elevation = 0;

    // Looking down -Z from (0, 0, 10): the axes are the identity and the
    // translation moves the eye to the origin.
    let v = camera.build_view_matrix(&trig_of_degrees(0.0, 0.0));
    assert_eq!(&v.m[0..4], &[1_000_000, 0, 0, 0]);
    assert_eq!(&v.m[4..8], &[0, 1_000_000, 0, 0]);
    assert_eq!(&v.m[8..12], &[0, 0, 1_000_000, -10_000_000]);
    assert_eq!(&v.m[12..16], &[0, 0, 0, 1_000_000]);
}
