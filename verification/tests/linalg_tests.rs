use raytracer::linalg::Vec3;
use raytracer::scalar::Scalar;

fn s(x: f32) -> Scalar {
    Scalar::from_bits(x.to_bits())
}

fn v(x: f32, y: f32, z: f32) -> Vec3 {
    Vec3::new(s(x), s(y), s(z))
}

fn tiny_by_hand(x: f32, y: f32, z: f32, tolerance: f32) -> bool {
    x.abs() < tolerance && y.abs() < tolerance && z.abs() < tolerance
}

#[test]
fn new_keeps_the_components() {
    let a = v(1.0, -2.0, 3.5);
    assert_eq!(a.x, s(1.0));
    assert_eq!(a.y, s(-2.0));
    assert_eq!(a.z, s(3.5));
}

#[test]
fn origin_and_the_three_axes() {
    assert_eq!(Vec3::origin(), v(0.0, 0.0, 0.0));
    assert_eq!(Vec3::unit_x(), v(1.0, 0.0, 0.0));
    assert_eq!(Vec3::unit_y(), v(0.0, 1.0, 0.0));
    assert_eq!(Vec3::unit_z(), v(0.0, 0.0, 1.0));
}

#[test]
fn neg_flips_every_component() {
    assert_eq!(v(1.0, -2.0, 0.0).neg(), v(-1.0, 2.0, -0.0));
    assert_eq!(v(1.0, -2.0, 0.0).neg().neg(), v(1.0, -2.0, 0.0));
}

#[test]
fn is_tiny_needs_every_component_inside_the_tolerance() {
    assert!(v(0.0, 0.0, 0.0).is_tiny(s(0.0001)));
    assert!(v(0.00005, -0.00005, 0.0).is_tiny(s(0.0001)));
    assert!(!v(0.001, 0.0, 0.0).is_tiny(s(0.0001)));
    assert!(!v(0.0, -0.001, 0.0).is_tiny(s(0.0001)));
    assert!(!v(0.0, 0.0, 0.001).is_tiny(s(0.0001)));
}

#[test]
fn is_tiny_excludes_the_tolerance_itself() {
    assert!(!v(0.0001, 0.0, 0.0).is_tiny(s(0.0001)));
    assert!(!v(0.0, 0.0, -0.0001).is_tiny(s(0.0001)));
    assert!(!v(0.0, 0.0, 0.0).is_tiny(s(0.0)));
}

#[test]
fn is_tiny_is_false_with_a_nan() {
    assert!(!v(f32::NAN, 0.0, 0.0).is_tiny(s(0.0001)));
    assert!(!v(0.0, 0.0, 0.0).is_tiny(s(f32::NAN)));
}

#[test]
fn is_tiny_agrees_with_the_comparison_by_hand() {
    let values = [0.0f32, -0.0, 0.00005, -0.00009, 0.0001, 0.0002, -1.0, f32::NAN, f32::INFINITY];
    let tolerances = [0.0001f32, 0.001, 0.0, -1.0, f32::INFINITY, f32::NAN];
    for &x in &values {
        for &y in &values {
            for &z in &values {
                for &t in &tolerances {
                    assert_eq!(v(x, y, z).is_tiny(s(t)), tiny_by_hand(x, y, z, t));
                }
            }
        }
    }
}

#[test]
fn in_unit_ball_keeps_the_sphere_itself() {
    assert!(Vec3::in_unit_ball(s(0.0)));
    assert!(Vec3::in_unit_ball(s(0.75)));
    assert!(Vec3::in_unit_ball(s(1.0)));
    assert!(!Vec3::in_unit_ball(s(1.0000001)));
    assert!(!Vec3::in_unit_ball(s(3.0)));
    assert!(!Vec3::in_unit_ball(s(f32::NAN)));
}
