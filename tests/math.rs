use raytracer::math::{isqrt_exec, Ray, Vec3, UNIT};

#[test]
fn vec3_new() {
    let v = Vec3::new(1, 2, 3);
    assert_eq!(v.x, 1);
    assert_eq!(v.y, 2);
    assert_eq!(v.z, 3);
}

#[test]
fn add() {
    let v0 = Vec3::new(2, 5, 99);
    let v1 = Vec3::new(6, 1, 1);

    let v = v0.add(v1);

    assert_eq!(v.x, 8);
    assert_eq!(v.y, 6);
    assert_eq!(v.z, 100);
}

#[test]
fn sub_mul_dot() {
    let a = Vec3::new(1, -2, 3);
    let b = Vec3::new(4, 5, -6);
    assert_eq!(Vec3::new(-3, -7, 9), a.sub(b));
    assert_eq!(Vec3::new(2, -4, 6), a.mul(2));
    assert_eq!(4 - 10 - 18, a.dot(&b));
    assert_eq!(14, a.magnitude_squared());
}

#[test]
fn ray_at_accepts_negative_parameters() {
    let r = Ray::new(Vec3::new(1, 1, 1), Vec3::new(0, 0, 2));
    assert_eq!(Vec3::new(1, 1, 7), r.at(3));
    assert_eq!(Vec3::new(1, 1, -3), r.at(-2));
    assert_eq!(Vec3::new(1, 1, 1), r.origin());
    assert_eq!(Vec3::new(0, 0, 2), r.direction());
}

#[test]
fn integer_square_root() {
    assert_eq!(0, isqrt_exec(0));
    assert_eq!(1, isqrt_exec(3));
    assert_eq!(2, isqrt_exec(4));
    assert_eq!(99, isqrt_exec(9999));
    assert_eq!(1 << 40, isqrt_exec(1 << 80));
}

#[test]
fn magnitude_rounds_down() {
    assert_eq!(5, Vec3::new(3, 4, 0).magnitude());
    assert_eq!(1, Vec3::new(1, 1, 0).magnitude());
    assert_eq!(0, Vec3::new(0, 0, 0).magnitude());
}

#[test]
fn normalized_has_fixed_point_unit_length() {
    assert_eq!(Vec3::new(3 * UNIT / 5, 4 * UNIT / 5, 0), Vec3::new(3, 4, 0).normalized());
    assert_eq!(Vec3::new(-UNIT, 0, 0), Vec3::new(-7, 0, 0).normalized());
    assert_eq!(Vec3::new(0, -39321, 52428), Vec3::new(0, -30, 40).normalized());
}

#[test]
fn normalizing_zero_gives_zero() {
    assert_eq!(Vec3::new(0, 0, 0), Vec3::new(0, 0, 0).normalized());
}
