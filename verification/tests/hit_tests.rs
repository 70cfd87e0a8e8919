//! Sphere intersection and the nearest-hit list sweep.

use pathtracer::fp::{fp_mul, FP_ONE};
use pathtracer::hit::{HitRecord, Hittable, HittableList, Sphere, T_FAR};
use pathtracer::material::{Lambertian, Material};
use pathtracer::ray::Ray;
use pathtracer::utils::random_scalar;
use pathtracer::vec3::Vec3;
use rand::rngs::StdRng;
use rand::SeedableRng;

fn gray() -> Material {
    Material::Lambertian(Lambertian::new(Vec3::new(32768, 32768, 32768)))
}

fn unit_sphere_at(z: i64, radius: i64) -> Sphere {
    Sphere { center: Vec3::new(0, 0, z), radius, material: gray() }
}

#[test]
fn ray_through_center_hits_surface() {
    // Sphere of radius 0.5 at (0, 0, -1); ray from the origin down -z.
    let s = unit_sphere_at(-FP_ONE, 32768);
    let ray = Ray::new(Vec3::new(0, 0, 0), Vec3::new(0, 0, -FP_ONE));
    let rec = s.hit(&ray, 0, T_FAR).expect("must hit");
    // The near intersection is at t = 0.5 exactly.
    assert_eq!(rec.t, 32768);
    assert_eq!(rec.p, Vec3::new(0, 0, -32768));
    // The hit point lies on the surface: |p - center|^2 == radius^2.
    let d = rec.p.sub(s.center);
    assert_eq!(d.sqnorm(), fp_mul(s.radius, s.radius));
    // The stored normal opposes the ray.
    assert_eq!(rec.normal, Vec3::new(0, 0, FP_ONE));
    assert!(rec.front_face);
    assert!(ray.direction.dot(rec.normal) <= 0);
}

#[test]
fn miss_returns_nothing() {
    let s = unit_sphere_at(-FP_ONE, 32768);
    let away = Ray::new(Vec3::new(0, 0, 0), Vec3::new(0, 0, FP_ONE));
    assert!(s.hit(&away, 0, T_FAR).is_none());
    let offset = Ray::new(Vec3::new(2 * FP_ONE, 0, 0), Vec3::new(0, 0, -FP_ONE));
    assert!(offset.direction.dot(Vec3::new(0, 0, FP_ONE)) <= 0);
    assert!(s.hit(&offset, 0, T_FAR).is_none());
}

#[test]
fn interval_excludes_near_and_far_roots() {
    let s = unit_sphere_at(-FP_ONE, 32768);
    let ray = Ray::new(Vec3::new(0, 0, 0), Vec3::new(0, 0, -FP_ONE));
    // The near root t = 0.5 is outside [0.6, far): only the smaller root
    // is ever tried, so the sphere reports no hit at all.
    assert!(s.hit(&ray, 39322, T_FAR).is_none());
    // And outside [0, 0.4] it is rejected as too far.
    assert!(s.hit(&ray, 0, 26214).is_none());
}

#[test]
fn negative_radius_flips_face_flag() {
    let inside_out = unit_sphere_at(-FP_ONE, -32768);
    let ray = Ray::new(Vec3::new(0, 0, 0), Vec3::new(0, 0, -FP_ONE));
    let rec = inside_out.hit(&ray, 0, T_FAR).expect("must hit");
    assert_eq!(rec.t, 32768);
    // The outward normal follows the sign of the radius, so the ray now
    // sees a back face; the stored normal still opposes the ray.
    assert!(!rec.front_face);
    assert_eq!(rec.normal, Vec3::new(0, 0, FP_ONE));
    assert!(ray.direction.dot(rec.normal) <= 0);
}

#[test]
fn set_face_normal_orients_against_ray() {
    let ray = Ray::new(Vec3::new(0, 0, 0), Vec3::new(0, 0, -FP_ONE));
    let mut rec = HitRecord {
        p: Vec3::new(0, 0, 0),
        t: 0,
        normal: Vec3::new(0, 0, 0),
        front_face: false,
        material: gray(),
    };
    // Outward normal opposing the ray: kept, front face.
    rec.set_face_normal(&ray, &Vec3::new(0, 0, FP_ONE));
    assert!(rec.front_face);
    assert_eq!(rec.normal, Vec3::new(0, 0, FP_ONE));
    // Outward normal along the ray: flipped, back face.
    rec.set_face_normal(&ray, &Vec3::new(0, 0, -FP_ONE));
    assert!(!rec.front_face);
    assert_eq!(rec.normal, Vec3::new(0, 0, FP_ONE));
    assert!(ray.direction.dot(rec.normal) <= 0);
}

#[test]
fn list_returns_nearest_hit() {
    let near = unit_sphere_at(-FP_ONE, 16384);
    let far = unit_sphere_at(-2 * FP_ONE, 16384);
    let ray = Ray::new(Vec3::new(0, 0, 0), Vec3::new(0, 0, -FP_ONE));

    let mut world: HittableList<Sphere> = HittableList::new();
    world.add(near);
    world.add(far);
    let rec = world.hit(&ray, 0, T_FAR).expect("must hit");

    // Insertion order does not matter for which distance wins.
    let mut reversed: HittableList<Sphere> = HittableList::new();
    reversed.add(far);
    reversed.add(near);
    let rec2 = reversed.hit(&ray, 0, T_FAR).expect("must hit");

    // The list result agrees with the argmin over independent tests.
    let tn = near.hit(&ray, 0, T_FAR).expect("near hits").t;
    let tf = far.hit(&ray, 0, T_FAR).expect("far hits").t;
    assert!(tn < tf);
    assert_eq!(rec.t, tn);
    assert_eq!(rec2.t, tn);
    assert_eq!(rec.p, rec2.p);
}

#[test]
fn list_agrees_with_argmin_on_random_scenes() {
    let mut rng = StdRng::seed_from_u64(1234);
    for _ in 0..50 {
        let mut world: HittableList<Sphere> = HittableList::new();
        let mut spheres: Vec<Sphere> = Vec::new();
        for _ in 0..5 {
            let cx: i64 = random_scalar(&mut rng, -4 * FP_ONE, 4 * FP_ONE);
            let cy: i64 = random_scalar(&mut rng, -4 * FP_ONE, 4 * FP_ONE);
            let cz: i64 = random_scalar(&mut rng, -8 * FP_ONE, -FP_ONE);
            let r: i64 = random_scalar(&mut rng, 16384, 2 * FP_ONE);
            let s = Sphere { center: Vec3::new(cx, cy, cz), radius: r, material: gray() };
            world.add(s);
            spheres.push(s);
        }
        let dx: i64 = random_scalar(&mut rng, -FP_ONE, FP_ONE);
        let dy: i64 = random_scalar(&mut rng, -FP_ONE, FP_ONE);
        let ray = Ray::new(Vec3::new(0, 0, 0), Vec3::new(dx, dy, -FP_ONE));

        let swept = world.hit(&ray, 0, T_FAR);
        let best = spheres
            .iter()
            .filter_map(|s| s.hit(&ray, 0, T_FAR))
            .min_by_key(|rec| rec.t);
        match (swept, best) {
            (None, None) => {}
            (Some(a), Some(b)) => assert_eq!(a.t, b.t),
            (a, b) => panic!("sweep {:?} vs argmin {:?}", a.map(|r| r.t), b.map(|r| r.t)),
        }
    }
}

#[test]
fn accepted_hits_lie_near_the_surface() {
    // For every accepted hit, the hit point's squared distance to the
    // center equals the squared radius up to the quantization of the
    // root and of the point evaluation.
    let mut rng = StdRng::seed_from_u64(4321);
    let mut checked: u32 = 0;
    for _ in 0..300 {
        let cx: i64 = random_scalar(&mut rng, -4 * FP_ONE, 4 * FP_ONE);
        let cy: i64 = random_scalar(&mut rng, -4 * FP_ONE, 4 * FP_ONE);
        let cz: i64 = random_scalar(&mut rng, -8 * FP_ONE, -2 * FP_ONE);
        let r: i64 = random_scalar(&mut rng, 16384, 2 * FP_ONE);
        let s = Sphere { center: Vec3::new(cx, cy, cz), radius: r, material: gray() };
        let dx: i64 = random_scalar(&mut rng, -FP_ONE, FP_ONE);
        let dy: i64 = random_scalar(&mut rng, -FP_ONE, FP_ONE);
        let ray = Ray::new(Vec3::new(0, 0, 0), Vec3::new(dx, dy, -FP_ONE));
        if let Some(rec) = s.hit(&ray, 0, T_FAR) {
            let d = rec.p.sub(s.center);
            let diff: i64 = (d.sqnorm() - fp_mul(r, r)).abs();
            assert!(diff < 4096, "surface residual {} at t {}", diff, rec.t);
            checked += 1;
        }
    }
    assert!(checked >= 10, "too few hits sampled: {}", checked);
}

#[test]
fn sub_resolution_sphere_is_still_hit() {
    // A sphere of radius one ulp: the quadratic accepts its root, and the
    // record is built with a normal recovered from the rescaled offset.
    let tiny = unit_sphere_at(-FP_ONE, 1);
    let ray = Ray::new(Vec3::new(0, 0, 0), Vec3::new(0, 0, -FP_ONE));
    let rec = tiny.hit(&ray, 66, T_FAR).expect("in-range root is accepted");
    assert_eq!(rec.t, 65535);
    assert_eq!(rec.normal, Vec3::new(0, 0, FP_ONE));
    assert!(rec.front_face);
    assert!(ray.direction.dot(rec.normal) <= 0);
}

#[test]
fn exact_center_hit_gets_zero_normal() {
    // A hit point that lands exactly on the center leaves the normal
    // direction undefined; the record carries the zero normal, just as
    // dividing the zero offset by the radius would.
    let s = unit_sphere_at(-FP_ONE, 32768);
    let mut rec = HitRecord {
        p: s.center,
        t: FP_ONE,
        normal: Vec3::new(0, 0, 0),
        front_face: false,
        material: gray(),
    };
    let ray = Ray::new(Vec3::new(0, 0, 0), Vec3::new(0, 0, -FP_ONE));
    rec.set_face_normal(&ray, &Vec3::new(0, 0, 0));
    assert_eq!(rec.normal, Vec3::new(0, 0, 0));
    assert!(!rec.front_face);
}

#[test]
fn empty_list_never_hits() {
    let world: HittableList<Sphere> = HittableList::new();
    let ray = Ray::new(Vec3::new(0, 0, 0), Vec3::new(0, 0, -FP_ONE));
    assert!(world.hit(&ray, 0, T_FAR).is_none());
}
