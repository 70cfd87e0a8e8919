//! A small path-tracing renderer verified with Verus.
//!
//! Real-valued quantities (positions, directions, colors) are represented as
//! fixed-point scalars: an `i64` holding the value scaled by 2^16.  Every
//! arithmetic step has an exact contract, so the geometric and optical rules
//! of the renderer are proved rather than approximated.
//!
//! This file holds the integrator (`ray_color`), the pixel sampler
//! (`render` and `write_color`) and the progress tracker.  The pixel
//! buffer `render` returns is the seam to whatever presentation shell
//! owns the display.

pub mod camera;
pub mod fp;
pub mod hit;
pub mod material;
pub mod ray;
pub mod rng;
pub mod utils;
pub mod vec3;

use vstd::prelude::*;
use rand::rngs::StdRng;
use crate::camera::Camera;
use crate::fp::{
    fp_mul, fp_mul_spec, fp_sqrt, idiv, lemma_fp_mul_fits, lemma_fp_mul_le_left, lemma_fp_mul_one,
    lemma_tdiv_pos, sqrt_spec, tdiv, FP_ONE,
};
use crate::hit::{ray_in_bounds, HitRecord, Hittable, HittableList, DIR_BOUND, POS_BOUND, T_FAR};
use crate::material::{attenuation_cap, color_in_range};
use crate::ray::Ray;
use crate::utils::{clamp, clamp_spec};
use crate::vec3::{lemma_dot_fits, sqnorm_spec, unit_spec, Vec3};

verus! {

/// (r, g, b) = (x, y, z)
pub type Color = Vec3;

/// Lower bound of the hit interval: keeps a bounced ray from immediately
/// intersecting the surface it left ("shadow acne").  One part in a
/// thousand, rounded up to fixed-point resolution.
pub const SHADOW_ACNE_MIN: i64 = 66;

/// Output image width in pixels.
pub const WIDTH: u32 = 512;

/// Output image height in pixels (16:9).
pub const HEIGHT: u32 = 288;

/// Render-progress bookkeeping, exposed passively to the shell.
pub struct Info {
    pub progress: u32,
}

impl Info {
    pub fn new() -> (r: Info)
        ensures
            r.progress == 0,
    {
        Info { progress: 0 }
    }

    /// Percentage of pixels finished once `(x, y)` completes, in scan
    /// order over the fixed output size.
    pub fn update_progress(&mut self, x: u32, y: u32)
        requires
            x < WIDTH,
            y < HEIGHT,
        ensures
            final(self).progress == ((y * 512 + x) * 100) / 147456,
    {
        self.progress = (((y as u64) * 512 + (x as u64)) * 100 / 147456) as u32;
    }
}

/// A ray the integrator can shade: inside the representable world, with a
/// direction long enough to normalize.
pub open spec fn shadeable_ray(r: Ray) -> bool {
    &&& ray_in_bounds(r)
    &&& sqnorm_spec(r.direction) >= 1
}

/// Runtime check for `shadeable_ray`.
fn ray_shadeable(ray: &Ray) -> (b: bool)
    ensures
        b == shadeable_ray(*ray),
{
    if ray.origin.x < -POS_BOUND || ray.origin.x > POS_BOUND || ray.origin.y < -POS_BOUND
        || ray.origin.y > POS_BOUND || ray.origin.z < -POS_BOUND || ray.origin.z > POS_BOUND {
        return false;
    }
    if ray.direction.x < -DIR_BOUND || ray.direction.x > DIR_BOUND || ray.direction.y < -DIR_BOUND
        || ray.direction.y > DIR_BOUND || ray.direction.z < -DIR_BOUND || ray.direction.z
        > DIR_BOUND {
        return false;
    }
    proof {
        lemma_dot_fits(ray.direction, ray.direction, 0x8000_0000, 0x8000_0000);
    }
    ray.direction.sqnorm() >= 1
}

/// The background gradient as a function of the normalized direction's
/// vertical component alone: a blend of white and sky blue.
pub open spec fn background_from_y_spec(y: int) -> Vec3 {
    let t = clamp_spec(tdiv(y + 65536, 2), 0, 65536);
    Vec3 {
        x: (fp_mul_spec(65536 - t, 65536) + fp_mul_spec(t, 32768)) as i64,
        y: (fp_mul_spec(65536 - t, 65536) + fp_mul_spec(t, 45875)) as i64,
        z: (fp_mul_spec(65536 - t, 65536) + fp_mul_spec(t, 65536)) as i64,
    }
}

/// The background color of a ray that hits nothing; it depends only on
/// the ray's direction.
pub open spec fn background_spec(dir: Vec3) -> Vec3 {
    background_from_y_spec(unit_spec(dir).y as int)
}

/// Evaluate the background gradient for a direction.
fn background(dir: Vec3) -> (c: Vec3)
    requires
        dir.bounded(DIR_BOUND as int),
        sqnorm_spec(dir) >= 1,
    ensures
        c == background_spec(dir),
        color_in_range(c),
{
    let unit_direction = dir.normalize();
    let t = clamp(idiv(unit_direction.y + FP_ONE, 2), 0, FP_ONE);
    proof {
        lemma_fp_mul_one((FP_ONE - t) as int);
        lemma_fp_mul_one(t as int);
        lemma_fp_mul_le_left(t as int, 32768);
        lemma_fp_mul_le_left(t as int, 45875);
        lemma_fp_mul_le_left(t as int, 65536);
    }
    let one_minus = FP_ONE - t;
    let wpart = fp_mul(one_minus, FP_ONE);
    Vec3::new(wpart + fp_mul(t, 32768), wpart + fp_mul(t, 45875), wpart + fp_mul(t, FP_ONE))
}

/// The background is a convex blend of white `(1, 1, 1)` and sky blue
/// `(0.5, 0.7, 1)` decided only by the direction's vertical component:
/// each channel lies between its two endpoint values (to within one
/// rounding ulp below) and the blue channel is exactly one.  The ray's
/// origin plays no part.
pub proof fn lemma_background_convex(dir: Vec3)
    requires
        dir.bounded(DIR_BOUND as int),
        sqnorm_spec(dir) >= 1,
    ensures
        background_spec(dir) == background_from_y_spec(unit_spec(dir).y as int),
        32767 <= background_spec(dir).x <= FP_ONE,
        45874 <= background_spec(dir).y <= FP_ONE,
        background_spec(dir).z == FP_ONE,
{
    let y = unit_spec(dir).y as int;
    let t = clamp_spec(tdiv(y + 65536, 2), 0, 65536);
    assert(0 <= t <= 65536);
    lemma_fp_mul_one(65536 - t);
    lemma_fp_mul_one(t);
    lemma_fp_mul_le_left(t, 32768);
    lemma_fp_mul_le_left(t, 45875);
    lemma_tdiv_pos(t * 32768, 65536);
    lemma_tdiv_pos(t * 45875, 65536);
}

/// Everything the integrator promises of a returned color, for a given
/// scene, ray and depth budget: a color in `[0, 1]^3` always; exact black
/// on an exhausted budget, and on a ray outside the representable world
/// or with a direction too short to normalize (a representation guard);
/// the exact background gradient on a miss; and componentwise at most
/// the hit material's attenuation on a hit (black, when the ray is
/// absorbed, included).  The scene is always resolved over the interval
/// `[SHADOW_ACNE_MIN, T_FAR]`.
pub open spec fn radiance_ok<T: Hittable>(objs: Seq<T>, ray: Ray, depth: int, c: Vec3) -> bool {
    &&& color_in_range(c)
    &&& depth < 0 ==> c == (Vec3 { x: 0, y: 0, z: 0 })
    &&& (depth >= 0 && !shadeable_ray(ray)) ==> c == (Vec3 { x: 0, y: 0, z: 0 })
    &&& (depth >= 0 && shadeable_ray(ray) && HittableList::<T>::scan_spec(
        objs,
        ray,
        SHADOW_ACNE_MIN,
        T_FAR,
        None::<HitRecord>,
    ) is None) ==> c == background_spec(ray.direction)
    &&& (depth >= 0 && shadeable_ray(ray)) ==> (HittableList::<T>::scan_spec(
        objs,
        ray,
        SHADOW_ACNE_MIN,
        T_FAR,
        None::<HitRecord>,
    ) matches Some(rec) ==> {
        &&& c.x <= attenuation_cap(rec.material).x
        &&& c.y <= attenuation_cap(rec.material).y
        &&& c.z <= attenuation_cap(rec.material).z
    })
}

/// Recursive radiance: intersect, scatter, attenuate; black when the
/// depth budget is exhausted or the ray is absorbed; the background
/// gradient when the ray escapes the scene.  `radiance_ok` spells out the
/// full contract.
pub fn ray_color<T: Hittable>(
    ray: &Ray,
    world: &HittableList<T>,
    rng: &mut StdRng,
    depth: i32,
) -> (c: Vec3)
    requires
        world.wf(),
    ensures
        radiance_ok(world.objects@, *ray, depth as int, c),
    decreases (if depth < 0 {
        0int
    } else {
        depth + 1
    }),
{
    if depth < 0 {
        return Vec3::new(0, 0, 0);
    }
    if !ray_shadeable(ray) {
        return Vec3::new(0, 0, 0);
    }
    match world.hit(ray, SHADOW_ACNE_MIN, T_FAR) {
        Some(hit_record) => {
            match hit_record.material.scatter(ray, &hit_record, rng) {
                Some((scattered, attenuation)) => {
                    let sub = ray_color(&scattered, world, rng, depth - 1);
                    proof {
                        lemma_fp_mul_fits(attenuation.x as int, sub.x as int, 65536, 65536);
                        lemma_fp_mul_fits(attenuation.y as int, sub.y as int, 65536, 65536);
                        lemma_fp_mul_fits(attenuation.z as int, sub.z as int, 65536, 65536);
                        lemma_fp_mul_le_left(attenuation.x as int, sub.x as int);
                        lemma_fp_mul_le_left(attenuation.y as int, sub.y as int);
                        lemma_fp_mul_le_left(attenuation.z as int, sub.z as int);
                    }
                    attenuation.mul_elem(sub)
                },
                None => Vec3::new(0, 0, 0),
            }
        },
        None => background(ray.direction),
    }
}

/// One 8-bit channel of `write_color_spec`: divide by the sample count,
/// gamma-correct, clamp and scale to the byte range.
pub open spec fn channel_spec(c: int, spp: int) -> int {
    let s = tdiv(c, spp);
    tdiv(clamp_spec(sqrt_spec((s * 65536) as nat) as int, 0, 65470) * 256, 65536)
}

/// The finished 8-bit pixel for an accumulated color.
pub open spec fn write_color_spec(c: Vec3, spp: int) -> (int, int, int) {
    (channel_spec(c.x as int, spp), channel_spec(c.y as int, spp), channel_spec(c.z as int, spp))
}

/// Resolve an accumulated pixel color into its final 8-bit channels:
/// average the samples, apply gamma-2 correction (square root), clamp to
/// `[0, 0.999]` and scale to `0..=255`.
pub fn write_color(color: Vec3, samples_per_pixel: u32) -> (rgb: (u8, u8, u8))
    requires
        1 <= samples_per_pixel <= 4096,
        0 <= color.x <= samples_per_pixel * 65536,
        0 <= color.y <= samples_per_pixel * 65536,
        0 <= color.z <= samples_per_pixel * 65536,
    ensures
        rgb.0 == write_color_spec(color, samples_per_pixel as int).0,
        rgb.1 == write_color_spec(color, samples_per_pixel as int).1,
        rgb.2 == write_color_spec(color, samples_per_pixel as int).2,
{
    let spp = samples_per_pixel as i64;
    let rx = resolve_channel(color.x, spp);
    let ry = resolve_channel(color.y, spp);
    let rz = resolve_channel(color.z, spp);
    (rx, ry, rz)
}

/// One channel of `write_color`.
fn resolve_channel(c: i64, spp: i64) -> (b: u8)
    requires
        1 <= spp <= 4096,
        0 <= c <= spp * 65536,
    ensures
        b == channel_spec(c as int, spp as int),
{
    let s = idiv(c, spp);
    proof {
        lemma_tdiv_pos(c as int, spp as int);
        assert(tdiv(c as int, spp as int) <= 65536) by (nonlinear_arith)
            requires
                tdiv(c as int, spp as int) * (spp as int) <= c,
                c <= (spp as int) * 65536,
                spp >= 1,
                tdiv(c as int, spp as int) >= 0,
        ;
    }
    let g = fp_sqrt(s);
    proof {
        assert(g <= 65536) by (nonlinear_arith)
            requires
                g >= 0,
                g * g <= 65536int * 65536,
        ;
    }
    let cl = clamp(g, 0, 65470);
    let scaled = idiv(cl * 256, 65536);
    proof {
        lemma_tdiv_pos(cl as int * 256, 65536);
    }
    scaled as u8
}

/// The viewport coordinate of pixel index `x` (column or row) jittered
/// by `j` inside the pixel's cell: `(x + j) / (extent - 1)`, clamped into
/// `[0, 1]`.
pub open spec fn viewport_coord_spec(x: int, extent: int, j: int) -> int {
    clamp_spec(crate::fp::fp_div_spec(x * 65536 + j, (extent - 1) * 65536), 0, 65536)
}

/// The flipped vertical viewport coordinate: row 0 is the top of the
/// image and maps to `v = 1`.
pub open spec fn viewport_v_spec(y: int, extent: int, j: int) -> int {
    65536 - viewport_coord_spec(y, extent, j)
}

/// The camera ray for viewport point `(s, t)` and lens-disk sample `d`:
/// the camera origin offset by the lens sample, aimed at the viewport
/// point past that offset.
pub open spec fn sample_ray_spec(cam: Camera, s: int, t: int, d: Vec3) -> Ray {
    let off = cam.offset_spec(d);
    Ray {
        origin: Vec3 {
            x: (cam.origin.x + off.x) as i64,
            y: (cam.origin.y + off.y) as i64,
            z: (cam.origin.z + off.z) as i64,
        },
        direction: Vec3 {
            x: cam.ray_dir_spec(s, t, off).0 as i64,
            y: cam.ray_dir_spec(s, t, off).1 as i64,
            z: cam.ray_dir_spec(s, t, off).2 as i64,
        },
    }
}

/// One admissible integrator sample for pixel `(x, y)`: some sub-pixel
/// jitter pair and lens-disk sample produce the camera ray through that
/// pixel's cell (vertical axis flipped), and the color is one the
/// integrator's contract admits for that ray -- the exact background on
/// a miss, capped by the hit material's attenuation on a hit.
pub open spec fn admissible_sample<T: Hittable>(
    objs: Seq<T>,
    cam: Camera,
    x: int,
    y: int,
    width: int,
    height: int,
    depth: int,
    c: Vec3,
) -> bool {
    exists|ju: int, jv: int, d: Vec3|
        {
            &&& 0 <= ju < 65536
            &&& 0 <= jv < 65536
            &&& d.z == 0
            &&& d.bounded(65536)
            &&& 0 <= sqnorm_spec(d) < 65536
            &&& #[trigger] radiance_ok(
                objs,
                sample_ray_spec(
                    cam,
                    viewport_coord_spec(x, width, ju),
                    viewport_v_spec(y, height, jv),
                    d,
                ),
                depth,
                c,
            )
        }
}

/// Componentwise sum of a sequence of sample colors.
pub open spec fn color_sum_spec(s: Seq<Vec3>) -> (int, int, int)
    decreases s.len(),
{
    if s.len() == 0 {
        (0, 0, 0)
    } else {
        let rest = color_sum_spec(s.drop_last());
        (rest.0 + s.last().x, rest.1 + s.last().y, rest.2 + s.last().z)
    }
}

/// Pixel `(x, y)` of the finished image: the resolved form (averaging,
/// gamma, clamp, byte scaling) of the sum of `spp` admissible integrator
/// samples for that pixel.
pub open spec fn pixel_rendered<T: Hittable>(
    objs: Seq<T>,
    cam: Camera,
    x: int,
    y: int,
    width: int,
    height: int,
    spp: int,
    depth: int,
    px: (u8, u8, u8),
) -> bool {
    exists|samples: Seq<Vec3>|
        {
            &&& samples.len() == spp
            &&& (forall|k: int|
                0 <= k < samples.len() ==> admissible_sample(
                    objs,
                    cam,
                    x,
                    y,
                    width,
                    height,
                    depth,
                    #[trigger] samples[k],
                ))
            &&& {
                let acc = #[trigger] color_sum_spec(samples);
                let accv = Vec3 { x: acc.0 as i64, y: acc.1 as i64, z: acc.2 as i64 };
                &&& px.0 == write_color_spec(accv, spp).0
                &&& px.1 == write_color_spec(accv, spp).1
                &&& px.2 == write_color_spec(accv, spp).2
            }
        }
}

/// Render the scene: for each pixel, average `samples_per_pixel` jittered
/// camera rays through the integrator, then resolve to 8-bit channels.
/// The contract pins the layout and the content: the buffer holds one
/// entry per pixel in row-major order (entry `j` is pixel
/// `(j % width, j / width)`, row 0 at the top), and every entry is the
/// resolved sum of integrator samples taken through that pixel's own
/// jittered camera rays.
pub fn render<T: Hittable>(
    world: &HittableList<T>,
    camera: &Camera,
    width: u32,
    height: u32,
    samples_per_pixel: u32,
    max_depth: i32,
    rng: &mut StdRng,
) -> (pixels: Vec<(u8, u8, u8)>)
    requires
        world.wf(),
        camera.wf(),
        2 <= width <= 4096,
        2 <= height <= 4096,
        1 <= samples_per_pixel <= 4096,
        0 <= max_depth,
    ensures
        pixels@.len() == width * height,
        forall|j: int|
            0 <= j < pixels@.len() ==> pixel_rendered(
                world.objects@,
                *camera,
                j % (width as int),
                j / (width as int),
                width as int,
                height as int,
                samples_per_pixel as int,
                max_depth as int,
                #[trigger] pixels@[j],
            ),
{
    let mut pixels: Vec<(u8, u8, u8)> = Vec::new();
    let mut y: u32 = 0;
    while y < height
        invariant
            world.wf(),
            camera.wf(),
            2 <= width <= 4096,
            2 <= height <= 4096,
            1 <= samples_per_pixel <= 4096,
            0 <= max_depth,
            y <= height,
            pixels@.len() == y * width,
            forall|j: int|
                0 <= j < pixels@.len() ==> pixel_rendered(
                    world.objects@,
                    *camera,
                    j % (width as int),
                    j / (width as int),
                    width as int,
                    height as int,
                    samples_per_pixel as int,
                    max_depth as int,
                    #[trigger] pixels@[j],
                ),
        decreases height - y,
    {
        let mut x: u32 = 0;
        while x < width
            invariant
                world.wf(),
                camera.wf(),
                2 <= width <= 4096,
                2 <= height <= 4096,
                1 <= samples_per_pixel <= 4096,
                0 <= max_depth,
                y < height,
                x <= width,
                pixels@.len() == y * width + x,
                forall|j: int|
                    0 <= j < pixels@.len() ==> pixel_rendered(
                        world.objects@,
                        *camera,
                        j % (width as int),
                        j / (width as int),
                        width as int,
                        height as int,
                        samples_per_pixel as int,
                        max_depth as int,
                        #[trigger] pixels@[j],
                    ),
            decreases width - x,
        {
            let mut acc = Vec3::new(0, 0, 0);
            let mut s: u32 = 0;
            let ghost mut samples: Seq<Vec3> = Seq::empty();
            while s < samples_per_pixel
                invariant
                    world.wf(),
                    camera.wf(),
                    2 <= width <= 4096,
                    2 <= height <= 4096,
                    1 <= samples_per_pixel <= 4096,
                    0 <= max_depth,
                    y < height,
                    x < width,
                    s <= samples_per_pixel,
                    0 <= acc.x <= s * 65536,
                    0 <= acc.y <= s * 65536,
                    0 <= acc.z <= s * 65536,
                    samples.len() == s,
                    forall|k: int|
                        0 <= k < samples.len() ==> admissible_sample(
                            world.objects@,
                            *camera,
                            x as int,
                            y as int,
                            width as int,
                            height as int,
                            max_depth as int,
                            #[trigger] samples[k],
                        ),
                    color_sum_spec(samples) == (acc.x as int, acc.y as int, acc.z as int),
                decreases samples_per_pixel - s,
            {
                let ju = crate::utils::random_scalar(rng, 0, FP_ONE);
                let jv = crate::utils::random_scalar(rng, 0, FP_ONE);
                proof {
                    crate::fp::lemma_fp_div_fits(
                        (x as int) * 65536 + ju as int,
                        ((width - 1) as int) * 65536,
                        0x1000_0000,
                        65536,
                    );
                    crate::fp::lemma_fp_div_fits(
                        (y as int) * 65536 + jv as int,
                        ((height - 1) as int) * 65536,
                        0x1000_0000,
                        65536,
                    );
                }
                let su = crate::fp::fp_div((x as i64) * 65536 + ju, ((width - 1) as i64) * 65536);
                let u = clamp(su, 0, FP_ONE);
                let sv = crate::fp::fp_div((y as i64) * 65536 + jv, ((height - 1) as i64) * 65536);
                let v = FP_ONE - clamp(sv, 0, FP_ONE);
                let r = camera.get_ray(u, v, rng);
                let c = ray_color(&r, world, rng, max_depth);
                proof {
                    let dw = choose|d: Vec3|
                        {
                            &&& d.z == 0
                            &&& d.bounded(FP_ONE as int)
                            &&& 0 <= sqnorm_spec(d) < FP_ONE
                            &&& r.origin.x == camera.origin.x + camera.offset_spec(d).x
                            &&& r.origin.y == camera.origin.y + camera.offset_spec(d).y
                            &&& r.origin.z == camera.origin.z + camera.offset_spec(d).z
                            &&& r.direction.x == camera.ray_dir_spec(
                                u as int,
                                v as int,
                                camera.offset_spec(d),
                            ).0
                            &&& r.direction.y == camera.ray_dir_spec(
                                u as int,
                                v as int,
                                camera.offset_spec(d),
                            ).1
                            &&& r.direction.z == camera.ray_dir_spec(
                                u as int,
                                v as int,
                                camera.offset_spec(d),
                            ).2
                        };
                    assert(u as int == viewport_coord_spec(x as int, width as int, ju as int));
                    assert(v as int == viewport_v_spec(y as int, height as int, jv as int));
                    assert(sample_ray_spec(*camera, u as int, v as int, dw) == r);
                    assert(admissible_sample(
                        world.objects@,
                        *camera,
                        x as int,
                        y as int,
                        width as int,
                        height as int,
                        max_depth as int,
                        c,
                    )) by {
                        assert(0 <= ju < 65536 && 0 <= jv < 65536 && dw.z == 0 && dw.bounded(65536)
                            && 0 <= sqnorm_spec(dw) < 65536 && radiance_ok(
                            world.objects@,
                            sample_ray_spec(
                                *camera,
                                viewport_coord_spec(x as int, width as int, ju as int),
                                viewport_v_spec(y as int, height as int, jv as int),
                                dw,
                            ),
                            max_depth as int,
                            c,
                        ));
                    }
                }
                acc = acc.add(c);
                proof {
                    assert((s + 1) * 65536 == s * 65536 + 65536) by (nonlinear_arith);
                    let ghost old_samples = samples;
                    samples = samples.push(c);
                    assert(samples.drop_last() =~= old_samples);
                    assert(samples.last() == c);
                }
                s = s + 1;
            }
            let rgb = write_color(acc, samples_per_pixel);
            proof {
                assert(pixel_rendered(
                    world.objects@,
                    *camera,
                    x as int,
                    y as int,
                    width as int,
                    height as int,
                    samples_per_pixel as int,
                    max_depth as int,
                    rgb,
                )) by {
                    let acc0 = color_sum_spec(samples);
                    let accv = Vec3 { x: acc0.0 as i64, y: acc0.1 as i64, z: acc0.2 as i64 };
                    assert(accv == acc);
                    assert(samples.len() == samples_per_pixel && rgb.0 == write_color_spec(
                        accv,
                        samples_per_pixel as int,
                    ).0 && rgb.1 == write_color_spec(accv, samples_per_pixel as int).1 && rgb.2
                        == write_color_spec(accv, samples_per_pixel as int).2);
                }
            }
            let ghost prev = pixels@;
            pixels.push(rgb);
            proof {
                vstd::arithmetic::div_mod::lemma_fundamental_div_mod_converse_div(
                    prev.len() as int,
                    width as int,
                    y as int,
                    x as int,
                );
                vstd::arithmetic::div_mod::lemma_fundamental_div_mod_converse_mod(
                    prev.len() as int,
                    width as int,
                    y as int,
                    x as int,
                );
                assert forall|j: int| 0 <= j < pixels@.len() implies pixel_rendered(
                    world.objects@,
                    *camera,
                    j % (width as int),
                    j / (width as int),
                    width as int,
                    height as int,
                    samples_per_pixel as int,
                    max_depth as int,
                    #[trigger] pixels@[j],
                ) by {
                    if j < prev.len() {
                        assert(pixels@[j] == prev[j]);
                        assert(pixel_rendered(
                            world.objects@,
                            *camera,
                            j % (width as int),
                            j / (width as int),
                            width as int,
                            height as int,
                            samples_per_pixel as int,
                            max_depth as int,
                            prev[j],
                        ));
                    } else {
                        assert(j == prev.len());
                        assert(pixels@[j] == rgb);
                        assert(j % (width as int) == x as int && j / (width as int) == y as int);
                    }
                }
            }
            x = x + 1;
        }
        proof {
            assert((y + 1) * width == y * width + width) by (nonlinear_arith);
        }
        y = y + 1;
    }
    proof {
        assert(height * width == width * height) by (nonlinear_arith);
    }
    pixels
}

} // verus!
