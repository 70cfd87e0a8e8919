//! Material scattering: the diffuse, specular and refractive rules.

use pathtracer::fp::FP_ONE;
use pathtracer::hit::{HitRecord, Hittable, HittableList, Sphere, T_FAR};
use pathtracer::material::{Dielectic, Lambertian, Material, Metal};
use pathtracer::ray::Ray;
use pathtracer::vec3::Vec3;
use rand::rngs::StdRng;
use rand::SeedableRng;

fn record_facing_up() -> HitRecord {
    HitRecord {
        p: Vec3::new(0, 0, -32768),
        t: 32768,
        normal: Vec3::new(0, 0, FP_ONE),
        front_face: true,
        material: Material::Lambertian(Lambertian::new(Vec3::new(32768, 32768, 32768))),
    }
}

#[test]
fn lambertian_always_scatters() {
    let m = Lambertian::new(Vec3::new(32768, 13107, 6553));
    let ray = Ray::new(Vec3::new(0, 0, 0), Vec3::new(0, 0, -FP_ONE));
    let rec = record_facing_up();
    let mut rng = StdRng::seed_from_u64(11);
    for _ in 0..100 {
        let (scattered, attenuation) = m.scatter(&ray, &rec, &mut rng).expect("always scatters");
        assert_eq!(attenuation, m.albedo);
        assert_eq!(scattered.origin, rec.p);
    }
}

#[test]
fn lambertian_degenerate_direction_falls_back_to_normal() {
    let m = Lambertian::new(Vec3::new(32768, 32768, 32768));
    let rec = record_facing_up();
    // A unit sample exactly opposite the normal cancels it.
    let r = m.scatter_with(&rec, Vec3::new(0, 0, -FP_ONE)).expect("always scatters");
    assert_eq!(r.0.direction, rec.normal);
    // Any other sample adds to the normal.
    let r2 = m.scatter_with(&rec, Vec3::new(FP_ONE, 0, 0)).expect("always scatters");
    assert_eq!(r2.0.direction, Vec3::new(FP_ONE, 0, FP_ONE));
}

#[test]
fn metal_reflects_exactly_without_fuzz() {
    let m = Metal::new(Vec3::new(FP_ONE, FP_ONE, FP_ONE), 0);
    let ray = Ray::new(Vec3::new(0, 0, 0), Vec3::new(0, 0, -FP_ONE));
    let rec = record_facing_up();
    let (scattered, attenuation) =
        m.scatter_with(&ray, &rec, Vec3::new(0, 0, FP_ONE)).expect("reflection leaves surface");
    assert_eq!(attenuation, m.albedo);
    assert_eq!(scattered.direction, Vec3::new(0, 0, FP_ONE));
    assert!(scattered.direction.dot(rec.normal) > 0);
}

#[test]
fn metal_absorbs_when_fuzz_turns_ray_inward() {
    let m = Metal::new(Vec3::new(FP_ONE, FP_ONE, FP_ONE), FP_ONE);
    let ray = Ray::new(Vec3::new(0, 0, 0), Vec3::new(0, 0, -FP_ONE));
    let rec = record_facing_up();
    // Reflection is (0, 0, 1); a fuzz sample of (0, 0, -2) drives the
    // outgoing direction into the surface, so the ray is absorbed.
    let r = m.scatter_with(&ray, &rec, Vec3::new(0, 0, -2 * FP_ONE));
    assert!(r.is_none());
    // Whereas a tangential fuzz sample keeps it out.
    let r2 = m.scatter_with(&ray, &rec, Vec3::new(FP_ONE, 0, 0));
    assert!(r2.is_some());
}

#[test]
fn dielectric_always_scatters_white() {
    let m = Dielectic::new(98304);
    let ray = Ray::new(Vec3::new(0, 0, 0), Vec3::new(0, 0, -FP_ONE));
    let rec = record_facing_up();
    let mut rng = StdRng::seed_from_u64(5);
    for _ in 0..100 {
        let (_, attenuation) = m.scatter(&ray, &rec, &mut rng).expect("always scatters");
        assert_eq!(attenuation, Vec3::new(FP_ONE, FP_ONE, FP_ONE));
    }
}

#[test]
fn dielectric_refracts_straight_through_at_normal_incidence() {
    let m = Dielectic::new(98304);
    let ray = Ray::new(Vec3::new(0, 0, 0), Vec3::new(0, 0, -FP_ONE));
    let rec = record_facing_up();
    // At normal incidence reflectance is r0 (about 4%); a losing draw
    // refracts, and straight-on refraction does not bend the ray.
    let (scattered, _) = m.scatter_with(&ray, &rec, FP_ONE).expect("always scatters");
    assert_eq!(scattered.direction, Vec3::new(0, 0, -FP_ONE));
    // A winning draw (below r0) reflects instead.
    let (reflected, _) = m.scatter_with(&ray, &rec, 0).expect("always scatters");
    assert_eq!(reflected.direction, Vec3::new(0, 0, FP_ONE));
}

#[test]
fn dielectric_total_internal_reflection() {
    // Leaving glass (back face): ratio is the full index 1.5; a grazing
    // incoming ray exceeds the critical angle and must reflect whatever
    // the draw says.
    let m = Dielectic::new(98304);
    let mut rec = record_facing_up();
    rec.front_face = false;
    let ray = Ray::new(Vec3::new(0, 0, 0), Vec3::new(FP_ONE, 0, -6554));
    let (scattered, _) = m.scatter_with(&ray, &rec, FP_ONE).expect("always scatters");
    // Reflection flips the sign of the component along the normal.
    assert!(scattered.direction.z > 0);
    let (scattered2, _) = m.scatter_with(&ray, &rec, 0).expect("always scatters");
    assert!(scattered2.direction.z > 0);
}

#[test]
fn scatter_dispatch_matches_variant() {
    let ray = Ray::new(Vec3::new(0, 0, 0), Vec3::new(0, 0, -FP_ONE));
    let rec = record_facing_up();
    let mut rng = StdRng::seed_from_u64(3);
    let lam = Material::Lambertian(Lambertian::new(Vec3::new(100, 200, 300)));
    let (_, a1) = lam.scatter(&ray, &rec, &mut rng).expect("diffuse always scatters");
    assert_eq!(a1, Vec3::new(100, 200, 300));
    let die = Material::Dielectic(Dielectic::new(FP_ONE));
    let (_, a2) = die.scatter(&ray, &rec, &mut rng).expect("clear always scatters");
    assert_eq!(a2, Vec3::new(FP_ONE, FP_ONE, FP_ONE));
}

#[test]
fn list_hit_carries_material_to_scatter() {
    let albedo = Vec3::new(FP_ONE, 0, 0);
    let s = Sphere {
        center: Vec3::new(0, 0, -FP_ONE),
        radius: 32768,
        material: Material::Lambertian(Lambertian::new(albedo)),
    };
    let mut world: HittableList<Sphere> = HittableList::new();
    world.add(s);
    let ray = Ray::new(Vec3::new(0, 0, 0), Vec3::new(0, 0, -FP_ONE));
    let rec = world.hit(&ray, 0, T_FAR).expect("must hit");
    let mut rng = StdRng::seed_from_u64(8);
    let (_, attenuation) = rec.material.scatter(&ray, &rec, &mut rng).expect("diffuse scatters");
    assert_eq!(attenuation, albedo);
}
