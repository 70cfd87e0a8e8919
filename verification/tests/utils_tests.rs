//! Sampling utilities, reflection, refraction and Schlick reflectance.

use pathtracer::fp::FP_ONE;
use pathtracer::utils::{
    clamp, deg_to_rad, near_zero, rad_to_deg, random_in_unit_disk, random_scalar,
    random_unit_vector, random_vec3, random_vec3_in_unit_spehere, reflect, reflectance, refract,
    sqnorm,
};
use pathtracer::vec3::Vec3;
use rand::rngs::StdRng;
use rand::SeedableRng;

#[test]
fn clamp_cases() {
    assert_eq!(clamp(5, 0, 10), 5);
    assert_eq!(clamp(-5, 0, 10), 0);
    assert_eq!(clamp(15, 0, 10), 10);
}

#[test]
fn random_scalar_stays_in_range() {
    let mut rng = StdRng::seed_from_u64(7);
    for _ in 0..200 {
        let v: i64 = random_scalar(&mut rng, -FP_ONE, FP_ONE);
        assert!(-FP_ONE <= v && v < FP_ONE);
    }
    assert_eq!(random_scalar(&mut rng, 42, 42), 42);
}

#[test]
fn random_draws_are_reproducible_per_seed() {
    let mut a = StdRng::seed_from_u64(99);
    let mut b = StdRng::seed_from_u64(99);
    for _ in 0..32 {
        assert_eq!(
            random_scalar(&mut a, 0, FP_ONE),
            random_scalar(&mut b, 0, FP_ONE)
        );
    }
}

#[test]
fn random_vec3_in_unit_cube() {
    let mut rng = StdRng::seed_from_u64(1);
    for _ in 0..50 {
        let v = random_vec3(&mut rng);
        assert!(0 <= v.x && v.x < FP_ONE);
        assert!(0 <= v.y && v.y < FP_ONE);
        assert!(0 <= v.z && v.z < FP_ONE);
    }
}

#[test]
fn random_sphere_sample_is_inside_ball() {
    let mut rng = StdRng::seed_from_u64(2);
    for _ in 0..50 {
        let v = random_vec3_in_unit_spehere(&mut rng);
        assert!(sqnorm(v) < FP_ONE);
    }
}

#[test]
fn random_disk_sample_is_flat_and_inside() {
    let mut rng = StdRng::seed_from_u64(3);
    for _ in 0..50 {
        let v = random_in_unit_disk(&mut rng);
        assert_eq!(v.z, 0);
        assert!(sqnorm(v) < FP_ONE);
    }
}

#[test]
fn random_unit_vector_has_unit_length_within_band() {
    let mut rng = StdRng::seed_from_u64(4);
    for _ in 0..200 {
        let v = random_unit_vector(&mut rng);
        let n: i64 = sqnorm(v);
        // The contract's band: within 64 ulps of unit squared norm.
        assert!((n - FP_ONE).abs() <= 64, "sqnorm = {}", n);
    }
}

#[test]
fn reflect_mirrors_about_normal() {
    // (1, -1, 0) off the plane with normal (0, 1, 0) comes back (1, 1, 0).
    let v = Vec3::new(FP_ONE, -FP_ONE, 0);
    let n = Vec3::new(0, FP_ONE, 0);
    let r = reflect(&v, &n);
    assert_eq!(r, Vec3::new(FP_ONE, FP_ONE, 0));
}

#[test]
fn near_zero_is_exact_zero_at_fixed_point_resolution() {
    assert!(near_zero(&Vec3::new(0, 0, 0)));
    assert!(!near_zero(&Vec3::new(1, 0, 0)));
    assert!(!near_zero(&Vec3::new(0, -1, 0)));
}

#[test]
fn refract_straight_through_at_unit_ratio() {
    let uv = Vec3::new(0, 0, -FP_ONE);
    let n = Vec3::new(0, 0, FP_ONE);
    let out = refract(&uv, &n, FP_ONE);
    assert_eq!(out, Vec3::new(0, 0, -FP_ONE));
}

#[test]
fn reflectance_at_normal_incidence_is_r0() {
    // ratio 1.5: q = (1 - 1.5) / (1 + 1.5) truncated, r0 = q * q.
    let ridx: i64 = 98304;
    let q: i64 = pathtracer::fp::fp_div(FP_ONE - ridx, FP_ONE + ridx);
    let r0: i64 = pathtracer::fp::fp_mul(q, q);
    assert_eq!(reflectance(FP_ONE, ridx), r0);
    assert_eq!(r0, 2621);
}

#[test]
fn reflectance_at_grazing_incidence_is_one() {
    assert_eq!(reflectance(0, 98304), FP_ONE);
    assert_eq!(reflectance(0, 43690), FP_ONE);
}

#[test]
fn reflectance_stays_in_unit_interval() {
    for c in [0i64, 16384, 32768, 49152, FP_ONE] {
        for ridx in [4096i64, 43690, 65536, 98304, 16 * FP_ONE] {
            let r: i64 = reflectance(c, ridx);
            assert!(0 <= r && r <= FP_ONE);
        }
    }
}

#[test]
fn degree_radian_round_trip() {
    let rad: i64 = deg_to_rad(180 * FP_ONE);
    // 180 degrees is Pi radians, up to rounding.
    assert!((rad - pathtracer::fp::PI_FP).abs() < 8, "rad = {}", rad);
    let deg: i64 = rad_to_deg(rad);
    assert!((deg - 180 * FP_ONE).abs() < 256, "deg = {}", deg);
}
