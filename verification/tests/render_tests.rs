//! The camera, the integrator and the pixel pipeline, end to end.

use pathtracer::camera::Camera;
use pathtracer::fp::FP_ONE;
use pathtracer::hit::{Hittable, HittableList, Sphere, T_FAR};
use pathtracer::material::{Lambertian, Material};
use pathtracer::ray::Ray;
use pathtracer::vec3::Vec3;
use pathtracer::{ray_color, render, write_color, Info, SHADOW_ACNE_MIN};
use rand::rngs::StdRng;
use rand::SeedableRng;

fn axis_camera() -> Camera {
    Camera::new(
        Vec3::new(0, 0, 0),
        Vec3::new(0, 0, -FP_ONE),
        Vec3::new(0, FP_ONE, 0),
        90 * FP_ONE,
        FP_ONE,
        0,
        FP_ONE,
    )
}

fn two_sphere_scene() -> HittableList<Sphere> {
    let mut world: HittableList<Sphere> = HittableList::new();
    world.add(Sphere {
        center: Vec3::new(0, 0, -FP_ONE),
        radius: 32768,
        material: Material::Lambertian(Lambertian::new(Vec3::new(32768, 0, 0))),
    });
    world.add(Sphere {
        center: Vec3::new(0, -6586368, -FP_ONE),
        radius: 100 * FP_ONE,
        material: Material::Lambertian(Lambertian::new(Vec3::new(32768, 32768, 0))),
    });
    world
}

#[test]
fn camera_center_ray_looks_down_minus_z() {
    let cam = axis_camera();
    let mut rng = StdRng::seed_from_u64(1);
    // With a closed aperture the ray is deterministic.
    let r = cam.get_ray(32768, 32768, &mut rng);
    assert_eq!(r.origin, Vec3::new(0, 0, 0));
    // Through the image center the direction is straight down -z, up to
    // fixed-point rounding of the viewport basis.
    assert!(r.direction.x.abs() < 128, "x = {}", r.direction.x);
    assert!(r.direction.y.abs() < 128, "y = {}", r.direction.y);
    assert!((r.direction.z + FP_ONE).abs() < 512, "z = {}", r.direction.z);
}

#[test]
fn camera_config_check_matches_preconditions() {
    let lookfrom = Vec3::new(0, 0, 0);
    let lookat = Vec3::new(0, 0, -FP_ONE);
    let vup = Vec3::new(0, FP_ONE, 0);
    assert!(Camera::config_ok(lookfrom, lookat, vup, 90 * FP_ONE, FP_ONE, 0, FP_ONE));
    // Up vector parallel to the view direction: degenerate basis.
    let parallel_up = Vec3::new(0, 0, FP_ONE);
    assert!(!Camera::config_ok(lookfrom, lookat, parallel_up, 90 * FP_ONE, FP_ONE, 0, FP_ONE));
    // Looking at the camera's own position: degenerate view direction.
    assert!(!Camera::config_ok(lookfrom, lookfrom, vup, 90 * FP_ONE, FP_ONE, 0, FP_ONE));
    // Field of view outside the representable band.
    assert!(!Camera::config_ok(lookfrom, lookat, vup, 179 * FP_ONE, FP_ONE, 0, FP_ONE));
    assert!(!Camera::config_ok(lookfrom, lookat, vup, 0, FP_ONE, 0, FP_ONE));
    // Zero focus distance.
    assert!(!Camera::config_ok(lookfrom, lookat, vup, 90 * FP_ONE, FP_ONE, 0, 0));
}

#[test]
fn open_aperture_offsets_ray_origins() {
    // With an open lens the ray origin wanders over the aperture disk
    // around the camera position, and the rays stay in bounds.
    let cam = Camera::new(
        Vec3::new(0, 0, 0),
        Vec3::new(0, 0, -FP_ONE),
        Vec3::new(0, FP_ONE, 0),
        90 * FP_ONE,
        FP_ONE,
        2 * FP_ONE,
        FP_ONE,
    );
    let mut rng = StdRng::seed_from_u64(21);
    let mut distinct = false;
    let first = cam.get_ray(32768, 32768, &mut rng);
    for _ in 0..10 {
        let r = cam.get_ray(32768, 32768, &mut rng);
        // The offset stays within the lens radius scale.
        assert!(r.origin.x.abs() <= 4 * FP_ONE);
        assert!(r.origin.y.abs() <= 4 * FP_ONE);
        assert!(r.origin.z.abs() <= 4 * FP_ONE);
        if r.origin != first.origin {
            distinct = true;
        }
    }
    assert!(distinct, "lens sampling never moved the origin");
}

#[test]
fn camera_corner_rays_spread() {
    let cam = axis_camera();
    let mut rng = StdRng::seed_from_u64(1);
    let left = cam.get_ray(0, 32768, &mut rng);
    let right = cam.get_ray(FP_ONE, 32768, &mut rng);
    assert!(left.direction.x < 0);
    assert!(right.direction.x > 0);
    let bottom = cam.get_ray(32768, 0, &mut rng);
    let top = cam.get_ray(32768, FP_ONE, &mut rng);
    assert!(bottom.direction.y < 0);
    assert!(top.direction.y > 0);
}

#[test]
fn exhausted_depth_budget_is_black() {
    let world = two_sphere_scene();
    let mut rng = StdRng::seed_from_u64(2);
    let rays = [
        Ray::new(Vec3::new(0, 0, 0), Vec3::new(0, 0, -FP_ONE)),
        Ray::new(Vec3::new(FP_ONE, 2 * FP_ONE, 3 * FP_ONE), Vec3::new(0, FP_ONE, 0)),
    ];
    for ray in rays.iter() {
        let c = ray_color(ray, &world, &mut rng, -1);
        assert_eq!(c, Vec3::new(0, 0, 0));
    }
}

#[test]
fn escaping_ray_returns_background_gradient() {
    let world = two_sphere_scene();
    let mut rng = StdRng::seed_from_u64(3);
    // Straight up: the gradient's blue end.
    let up = Ray::new(Vec3::new(0, 0, 0), Vec3::new(0, FP_ONE, 0));
    let c_up = ray_color(&up, &world, &mut rng, 4);
    assert_eq!(c_up, Vec3::new(32768, 45875, FP_ONE));
    // The same direction from another origin gives the same color.
    let up_shifted = Ray::new(Vec3::new(3 * FP_ONE, 2 * FP_ONE, FP_ONE), Vec3::new(0, FP_ONE, 0));
    let c_shifted = ray_color(&up_shifted, &world, &mut rng, 4);
    assert_eq!(c_up, c_shifted);
    // Horizontal +z (away from the scene): the white-blue midpoint.
    let level = Ray::new(Vec3::new(0, 0, 0), Vec3::new(0, 0, FP_ONE));
    let c_level = ray_color(&level, &world, &mut rng, 4);
    assert_eq!(c_level, Vec3::new(49152, 55705, FP_ONE));
    // Every background color is a blend of white and sky blue.
    assert!(c_up.x <= FP_ONE && c_up.x >= 32767);
    assert!(c_up.y <= FP_ONE && c_up.y >= 45874);
    assert_eq!(c_up.z, FP_ONE);
}

#[test]
fn center_ray_hits_small_sphere_before_ground() {
    let world = two_sphere_scene();
    let ray = Ray::new(Vec3::new(0, 0, 0), Vec3::new(0, 0, -FP_ONE));
    let rec = world.hit(&ray, SHADOW_ACNE_MIN, T_FAR).expect("scene is hit");
    // Nearest-hit: the small sphere at t = 0.5, not the ground.
    assert_eq!(rec.t, 32768);
    assert_eq!(
        rec.material,
        Material::Lambertian(Lambertian::new(Vec3::new(32768, 0, 0)))
    );
    let mut rng = StdRng::seed_from_u64(4);
    let c = ray_color(&ray, &world, &mut rng, 8);
    // A red-filtered bounce, not the background: the background has a
    // bright green channel, the red albedo zeroes it.
    assert_eq!(c.y, 0);
    assert_ne!(c, Vec3::new(49152, 55705, FP_ONE));
}

#[test]
fn write_color_applies_average_gamma_and_scale() {
    // One sample: (1, 0.25, 0) -> gamma -> (1, 0.5, 0) -> bytes.
    let rgb = write_color(Vec3::new(FP_ONE, 16384, 0), 1);
    assert_eq!(rgb, (255, 128, 0));
    // Four samples accumulated to the same averages.
    let rgb4 = write_color(Vec3::new(4 * FP_ONE, 4 * 16384, 0), 4);
    assert_eq!(rgb4, (255, 128, 0));
}

#[test]
fn render_produces_one_pixel_per_coordinate() {
    let world = two_sphere_scene();
    let cam = axis_camera();
    let mut rng = StdRng::seed_from_u64(5);
    let pixels = render(&world, &cam, 8, 4, 2, 3, &mut rng);
    assert_eq!(pixels.len(), 32);
    // The top rows see sky; the sky's blue channel resolves to the
    // brightest byte.
    assert!(pixels.iter().any(|p| p.2 == 255));
}

#[test]
fn render_is_deterministic_per_seed() {
    let world = two_sphere_scene();
    let cam = axis_camera();
    let mut rng_a = StdRng::seed_from_u64(77);
    let mut rng_b = StdRng::seed_from_u64(77);
    let a = render(&world, &cam, 6, 4, 2, 3, &mut rng_a);
    let b = render(&world, &cam, 6, 4, 2, 3, &mut rng_b);
    assert_eq!(a, b);
}

#[test]
fn progress_counts_finished_pixels() {
    let mut info = Info::new();
    assert_eq!(info.progress, 0);
    info.update_progress(0, 144);
    assert_eq!(info.progress, 50);
    info.update_progress(511, 287);
    assert_eq!(info.progress, 99);
}
