use grav_core::Vec3;

#[test]
fn vec3_new_and_equality() {
    let a = Vec3::new(1, -2, 3);
    assert_eq!(a.x, 1);
    assert_eq!(a.y, -2);
    assert_eq!(a.z, 3);
    assert_eq!(a, Vec3::new(1, -2, 3));
}

#[test]
fn vec3_add_sub() {
    let a = Vec3::new(1, 2, 3);
    let b = Vec3::new(-4, 10, 7);
    let s = a.add(b);
    assert_eq!((s.x, s.y, s.z), (-3, 12, 10));
    let d = a.sub(b);
    assert_eq!((d.x, d.y, d.z), (5, -8, -4));
}

#[test]
fn vec3_scalar_mul_div() {
    let a = Vec3::new(3, -8, 0);
    let p = a.mul(-2);
    assert_eq!((p.x, p.y, p.z), (-6, 16, 0));
    let q = Vec3::new(7, -7, 9).div(2);
    assert_eq!((q.x, q.y, q.z), (3, -3, 4));
    let q = Vec3::new(7, -7, 9).div(-2);
    assert_eq!((q.x, q.y, q.z), (-3, 3, -4));
}

#[test]
fn vec3_dot_and_cross() {
    let a = Vec3::new(1, 2, 3);
    let b = Vec3::new(4, -5, 6);
    assert_eq!(a.dot(&b), 4 - 10 + 18);
    let c = a.cross(&b);
    assert_eq!((c.x, c.y, c.z), (2 * 6 - 3 * (-5), 3 * 4 - 1 * 6, 1 * (-5) - 2 * 4));
    // The cross product is orthogonal to both factors.
    assert_eq!(a.dot(&c), 0);
    assert_eq!(b.dot(&c), 0);
}

#[test]
fn vec3_norm_exact() {
    assert_eq!(Vec3::new(3, 4, 0).norm(), 5);
    assert_eq!(Vec3::new(1, 2, 2).norm(), 3);
    assert_eq!(Vec3::new(0, 0, 0).norm(), 0);
    // Rounded down between two squares.
    assert_eq!(Vec3::new(1, 1, 1).norm(), 1);
}

#[test]
fn normalized_has_unit_norm() {
    // A unit vector carries norm ONE_MICRO = 1_000_000 in fixed point.
    let u = Vec3::new(3, 4, 0).normalized();
    assert_eq!((u.x, u.y, u.z), (600_000, 800_000, 0));
    assert_eq!(u.norm(), 1_000_000);
    let v = Vec3::new(1_000_000_000_000, -2_000_000_000_000, 500_000_000_000).normalized();
    assert!((v.norm() - 1_000_000).abs() <= 5);
    let w = Vec3::new(-7_000_000_000, 0, 24_000_000_000).normalized();
    assert_eq!((w.x, w.y, w.z), (-280_000, 0, 960_000));
    assert_eq!(w.norm(), 1_000_000);
}

#[test]
fn normalized_keeps_direction_of_tiny_vectors() {
    // The norm is measured at nanometre resolution, so even vectors a
    // few micrometres long normalize to within about 0.1% of unit.
    let u = Vec3::new(1, 1, 1).normalized();
    assert_eq!((u.x, u.y, u.z), (577_367, 577_367, 577_367));
    assert!((u.norm() - 1_000_000).abs() <= 1_000);
    let v = Vec3::new(1, 1, 0).normalized();
    assert_eq!((v.x, v.y, v.z), (707_213, 707_213, 0));
    assert!((v.norm() - 1_000_000).abs() <= 1_000);
}

#[test]
fn normalized_zero_vector_is_zero() {
    let z = Vec3::new(0, 0, 0).normalized();
    assert_eq!((z.x, z.y, z.z), (0, 0, 0));
}
