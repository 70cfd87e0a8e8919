//! Vector arithmetic and normalization.

use pathtracer::fp::FP_ONE;
use pathtracer::vec3::Vec3;

#[test]
fn componentwise_arithmetic() {
    let a = Vec3::new(FP_ONE, 2 * FP_ONE, -FP_ONE);
    let b = Vec3::new(3 * FP_ONE, -FP_ONE, FP_ONE);
    assert_eq!(a.add(b), Vec3::new(4 * FP_ONE, FP_ONE, 0));
    assert_eq!(a.sub(b), Vec3::new(-2 * FP_ONE, 3 * FP_ONE, -2 * FP_ONE));
    assert_eq!(a.neg(), Vec3::new(-FP_ONE, -2 * FP_ONE, FP_ONE));
    assert_eq!(a.scale(32768), Vec3::new(32768, FP_ONE, -32768));
    assert_eq!(
        a.mul_elem(b),
        Vec3::new(3 * FP_ONE, -2 * FP_ONE, -FP_ONE)
    );
}

#[test]
fn dot_and_cross_products() {
    let a = Vec3::new(FP_ONE, 0, 0);
    let b = Vec3::new(0, FP_ONE, 0);
    assert_eq!(a.dot(b), 0);
    assert_eq!(a.dot(a), FP_ONE);
    assert_eq!(a.cross(b), Vec3::new(0, 0, FP_ONE));
    assert_eq!(b.cross(a), Vec3::new(0, 0, -FP_ONE));
    let c = Vec3::new(FP_ONE, 2 * FP_ONE, 3 * FP_ONE);
    let d = Vec3::new(4 * FP_ONE, 5 * FP_ONE, 6 * FP_ONE);
    // 1*4 + 2*5 + 3*6 == 32
    assert_eq!(c.dot(d), 32 * FP_ONE);
}

#[test]
fn sqnorm_of_axis_vectors() {
    assert_eq!(Vec3::new(FP_ONE, 0, 0).sqnorm(), FP_ONE);
    assert_eq!(Vec3::new(0, 0, 0).sqnorm(), 0);
    // |(3, 4, 0)|^2 == 25
    assert_eq!(Vec3::new(3 * FP_ONE, 4 * FP_ONE, 0).sqnorm(), 25 * FP_ONE);
}

#[test]
fn normalize_three_four_five() {
    let v = Vec3::new(3 * FP_ONE, 4 * FP_ONE, 0);
    let n = v.normalize();
    // 3/5 = 0.6 and 4/5 = 0.8, truncated toward zero.
    assert_eq!(n.x, 39321);
    assert_eq!(n.y, 52428);
    assert_eq!(n.z, 0);
}

#[test]
fn normalize_lands_near_unit_length() {
    // Unit-or-longer inputs normalize to within 64 ulps of unit squared
    // norm.
    let cases = [
        Vec3::new(3 * FP_ONE, 4 * FP_ONE, 0),
        Vec3::new(FP_ONE, FP_ONE, FP_ONE),
        Vec3::new(-7 * FP_ONE, 2 * FP_ONE, 65537),
        Vec3::new(123456, -654321, 777777),
    ];
    for v in cases {
        let n = v.normalize();
        let s: i64 = n.sqnorm();
        assert!((s - FP_ONE).abs() <= 64, "sqnorm {}", s);
    }
}

#[test]
fn normalize_axis_is_exact() {
    let v = Vec3::new(0, 0, -7 * FP_ONE);
    let n = v.normalize();
    assert_eq!(n, Vec3::new(0, 0, -FP_ONE));
}
