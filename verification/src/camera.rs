//! The camera: maps normalized image-plane coordinates (plus a lens
//! sample for depth of field) to world-space rays.
//!
//! All derived fields are computed once by `new` and are immutable; their
//! exact values are stated by `camera_spec`.

use vstd::prelude::*;
use rand::rngs::StdRng;
use crate::fp::{
    fp_div, fp_div_spec, fp_mul, fp_mul_spec, fp_sincos, idiv, lemma_fp_div_fits,
    lemma_fp_mul_fits, lemma_tdiv_pos, sincos_spec, tdiv, FP_ONE,
};
use crate::hit::{ray_in_bounds};
use crate::ray::Ray;
use crate::utils::{clamp, clamp_spec, deg_to_rad, deg_to_rad_spec, random_in_unit_disk};
use crate::vec3::{
    cross_spec, lemma_cross_fits, sqnorm_spec, unit_spec, Vec3,
};

verus! {

/// The largest representable half-viewport slope (`tan` of half the
/// vertical field of view).  The admitted field of view stays at or below
/// 150 degrees, whose half-angle tangent (about 3.73) is under this cap,
/// so the clamp in `camera_h_spec` is a pure representation guard there.
pub const H_MAX: i64 = 262144;

/// Derived, immutable camera state.
#[derive(Clone, Copy, PartialEq, Eq, Structural, Debug)]
pub struct Camera {
    pub origin: Vec3,
    pub horizontal: Vec3,
    pub vertical: Vec3,
    pub u: Vec3,
    pub v: Vec3,
    pub lower_left_corner: Vec3,
    pub lens_radius: i64,
}

/// The difference `lookfrom - lookat`, as the vector `new` subtracts.
pub open spec fn view_dir_spec(lookfrom: Vec3, lookat: Vec3) -> Vec3 {
    Vec3 {
        x: (lookfrom.x - lookat.x) as i64,
        y: (lookfrom.y - lookat.y) as i64,
        z: (lookfrom.z - lookat.z) as i64,
    }
}

/// The cross product as a vector value.
pub open spec fn cross_vec_spec(a: Vec3, b: Vec3) -> Vec3 {
    Vec3 {
        x: cross_spec(a, b).0 as i64,
        y: cross_spec(a, b).1 as i64,
        z: cross_spec(a, b).2 as i64,
    }
}

/// The camera basis is well defined: the view direction is not degenerate
/// and the up vector is not parallel to it (their cross product does not
/// vanish at fixed-point resolution).
pub open spec fn camera_basis_ok(lookfrom: Vec3, lookat: Vec3, vup: Vec3) -> bool {
    let d = view_dir_spec(lookfrom, lookat);
    &&& sqnorm_spec(d) >= 1
    &&& sqnorm_spec(cross_vec_spec(vup, unit_spec(d))) >= 1
}

/// The half-viewport slope: the tangent of half the vertical field of
/// view, evaluated by the trig polynomials and clamped into `[0, H_MAX]`.
pub open spec fn camera_h_spec(vfov: int) -> int {
    let theta = deg_to_rad_spec(vfov);
    let half = tdiv(theta, 2);
    let sc = sincos_spec(half);
    if sc.1 <= 0 {
        H_MAX as int
    } else {
        clamp_spec(fp_div_spec(sc.0, sc.1), 0, H_MAX as int)
    }
}

/// The exact camera `new` builds.
pub open spec fn camera_spec(
    lookfrom: Vec3,
    lookat: Vec3,
    vup: Vec3,
    vfov: int,
    aspect_ratio: int,
    aperture: int,
    focus_dist: int,
) -> Camera {
    let h = camera_h_spec(vfov);
    let viewport_height = 2 * h;
    let viewport_width = fp_mul_spec(aspect_ratio, viewport_height);
    let w = unit_spec(view_dir_spec(lookfrom, lookat));
    let u = unit_spec(cross_vec_spec(vup, w));
    let v = cross_vec_spec(w, u);
    let fw = fp_mul_spec(focus_dist, viewport_width);
    let fh = fp_mul_spec(focus_dist, viewport_height);
    let horizontal = Vec3 {
        x: fp_mul_spec(u.x as int, fw) as i64,
        y: fp_mul_spec(u.y as int, fw) as i64,
        z: fp_mul_spec(u.z as int, fw) as i64,
    };
    let vertical = Vec3 {
        x: fp_mul_spec(v.x as int, fh) as i64,
        y: fp_mul_spec(v.y as int, fh) as i64,
        z: fp_mul_spec(v.z as int, fh) as i64,
    };
    let hh = Vec3 {
        x: fp_mul_spec(horizontal.x as int, 32768) as i64,
        y: fp_mul_spec(horizontal.y as int, 32768) as i64,
        z: fp_mul_spec(horizontal.z as int, 32768) as i64,
    };
    let vh = Vec3 {
        x: fp_mul_spec(vertical.x as int, 32768) as i64,
        y: fp_mul_spec(vertical.y as int, 32768) as i64,
        z: fp_mul_spec(vertical.z as int, 32768) as i64,
    };
    let fwv = Vec3 {
        x: fp_mul_spec(w.x as int, focus_dist) as i64,
        y: fp_mul_spec(w.y as int, focus_dist) as i64,
        z: fp_mul_spec(w.z as int, focus_dist) as i64,
    };
    let lower_left_corner = Vec3 {
        x: (lookfrom.x - hh.x - vh.x - fwv.x) as i64,
        y: (lookfrom.y - hh.y - vh.y - fwv.y) as i64,
        z: (lookfrom.z - hh.z - vh.z - fwv.z) as i64,
    };
    Camera {
        origin: lookfrom,
        horizontal,
        vertical,
        u,
        v,
        lower_left_corner,
        lens_radius: tdiv(aperture, 2) as i64,
    }
}

impl Camera {
    /// Field bounds that every camera built by `new` satisfies; what
    /// `get_ray` needs to stay within the representable world.
    pub open spec fn wf(self) -> bool {
        &&& self.origin.bounded(0x100_0000)
        &&& self.horizontal.bounded(0x1000_0000)
        &&& self.vertical.bounded(0x1000_0000)
        &&& self.u.bounded(131072)
        &&& self.v.bounded(524288)
        &&& self.lower_left_corner.bounded(0x2000_0000)
        &&& 0 <= self.lens_radius <= 131072
    }

    /// Build a camera from its configuration.  The preconditions bound the
    /// configuration to the representable world (coordinates, aspect,
    /// aperture, focus distance and a field of view of at most 150
    /// degrees) and demand a well-defined basis (the up vector must not
    /// be parallel to the view direction).  `camera_config_ok` checks the
    /// same conditions at run time.
    #[verifier::rlimit(100)]
    pub fn new(
        lookfrom: Vec3,
        lookat: Vec3,
        vup: Vec3,
        vfov: i64,
        aspect_ratio: i64,
        aperture: i64,
        focus_dist: i64,
    ) -> (r: Camera)
        requires
            lookfrom.bounded(0x100_0000),
            lookat.bounded(0x100_0000),
            vup.bounded(0x100_0000),
            0 < vfov <= 150 * FP_ONE,
            0 < aspect_ratio <= 4 * FP_ONE,
            0 <= aperture <= 4 * FP_ONE,
            4096 <= focus_dist <= 0x40_0000,
            camera_basis_ok(lookfrom, lookat, vup),
        ensures
            r == camera_spec(
                lookfrom,
                lookat,
                vup,
                vfov as int,
                aspect_ratio as int,
                aperture as int,
                focus_dist as int,
            ),
            r.wf(),
    {
        let theta = deg_to_rad(vfov);
        let half = idiv(theta, 2);
        proof {
            lemma_tdiv_pos(theta as int, 2);
        }
        let sc = fp_sincos(half);
        let h = if sc.1 <= 0 {
            H_MAX
        } else {
            proof {
                lemma_fp_div_fits(sc.0 as int, sc.1 as int, 131072, 1);
            }
            clamp(fp_div(sc.0, sc.1), 0, H_MAX)
        };
        let viewport_height = 2 * h;
        proof {
            lemma_fp_mul_fits(aspect_ratio as int, viewport_height as int, 262144, 524288);
        }
        let viewport_width = fp_mul(aspect_ratio, viewport_height);
        let d = lookfrom.sub(lookat);
        let w = d.normalize();
        proof {
            lemma_cross_fits(vup, w, 0x100_0000, 131072);
        }
        let cuw = vup.cross(w);
        let u = cuw.normalize();
        proof {
            lemma_cross_fits(w, u, 131072, 131072);
        }
        let v = w.cross(u);
        proof {
            lemma_fp_mul_fits(focus_dist as int, viewport_width as int, 0x40_0000, 2097152);
            lemma_fp_mul_fits(focus_dist as int, viewport_height as int, 0x40_0000, 524288);
        }
        let fw = fp_mul(focus_dist, viewport_width);
        let fh = fp_mul(focus_dist, viewport_height);
        proof {
            lemma_fp_mul_fits(u.x as int, fw as int, 131072, 0x800_0000);
            lemma_fp_mul_fits(u.y as int, fw as int, 131072, 0x800_0000);
            lemma_fp_mul_fits(u.z as int, fw as int, 131072, 0x800_0000);
            lemma_fp_mul_fits(v.x as int, fh as int, 524288, 0x200_0000);
            lemma_fp_mul_fits(v.y as int, fh as int, 524288, 0x200_0000);
            lemma_fp_mul_fits(v.z as int, fh as int, 524288, 0x200_0000);
        }
        let horizontal = u.scale(fw);
        let vertical = v.scale(fh);
        proof {
            lemma_fp_mul_fits(horizontal.x as int, 32768, 0x1000_0000, 32768);
            lemma_fp_mul_fits(horizontal.y as int, 32768, 0x1000_0000, 32768);
            lemma_fp_mul_fits(horizontal.z as int, 32768, 0x1000_0000, 32768);
            lemma_fp_mul_fits(vertical.x as int, 32768, 0x1000_0000, 32768);
            lemma_fp_mul_fits(vertical.y as int, 32768, 0x1000_0000, 32768);
            lemma_fp_mul_fits(vertical.z as int, 32768, 0x1000_0000, 32768);
            lemma_fp_mul_fits(w.x as int, focus_dist as int, 131072, 0x40_0000);
            lemma_fp_mul_fits(w.y as int, focus_dist as int, 131072, 0x40_0000);
            lemma_fp_mul_fits(w.z as int, focus_dist as int, 131072, 0x40_0000);
        }
        let hh = horizontal.scale(32768);
        let vh = vertical.scale(32768);
        let fwv = w.scale(focus_dist);
        let lower_left_corner = lookfrom.sub(hh).sub(vh).sub(fwv);
        let lens_radius = idiv(aperture, 2);
        let cam = Camera { origin: lookfrom, horizontal, vertical, u, v, lower_left_corner, lens_radius };
        proof {
            let cs = camera_spec(
                lookfrom,
                lookat,
                vup,
                vfov as int,
                aspect_ratio as int,
                aperture as int,
                focus_dist as int,
            );
            assert(theta as int == deg_to_rad_spec(vfov as int));
            assert(h as int == camera_h_spec(vfov as int));
            assert(w == unit_spec(view_dir_spec(lookfrom, lookat)));
            assert(cuw == cross_vec_spec(vup, w));
            assert(u == cs.u);
            assert(v == cs.v);
            assert(cam.horizontal == cs.horizontal);
            assert(cam.vertical == cs.vertical);
            assert(cam.lower_left_corner == cs.lower_left_corner);
            assert(cam.lens_radius == cs.lens_radius);
            assert(cam == cs);
        }
        cam
    }

    /// Runtime check for `new`'s preconditions: the coordinate and scalar
    /// bounds, and the basis condition (a usable view direction and an up
    /// vector not parallel to it).  A shell can call this before `new`
    /// instead of re-deriving the conditions.
    pub fn config_ok(
        lookfrom: Vec3,
        lookat: Vec3,
        vup: Vec3,
        vfov: i64,
        aspect_ratio: i64,
        aperture: i64,
        focus_dist: i64,
    ) -> (b: bool)
        ensures
            b == {
                &&& lookfrom.bounded(0x100_0000)
                &&& lookat.bounded(0x100_0000)
                &&& vup.bounded(0x100_0000)
                &&& 0 < vfov <= 150 * FP_ONE
                &&& 0 < aspect_ratio <= 4 * FP_ONE
                &&& 0 <= aperture <= 4 * FP_ONE
                &&& 4096 <= focus_dist <= 0x40_0000
                &&& camera_basis_ok(lookfrom, lookat, vup)
            },
    {
        if lookfrom.x < -0x100_0000 || lookfrom.x > 0x100_0000 || lookfrom.y < -0x100_0000
            || lookfrom.y > 0x100_0000 || lookfrom.z < -0x100_0000 || lookfrom.z > 0x100_0000 {
            return false;
        }
        if lookat.x < -0x100_0000 || lookat.x > 0x100_0000 || lookat.y < -0x100_0000 || lookat.y
            > 0x100_0000 || lookat.z < -0x100_0000 || lookat.z > 0x100_0000 {
            return false;
        }
        if vup.x < -0x100_0000 || vup.x > 0x100_0000 || vup.y < -0x100_0000 || vup.y > 0x100_0000
            || vup.z < -0x100_0000 || vup.z > 0x100_0000 {
            return false;
        }
        if !(0 < vfov && vfov <= 150 * FP_ONE) {
            return false;
        }
        if !(0 < aspect_ratio && aspect_ratio <= 4 * FP_ONE) {
            return false;
        }
        if !(0 <= aperture && aperture <= 4 * FP_ONE) {
            return false;
        }
        if !(4096 <= focus_dist && focus_dist <= 0x40_0000) {
            return false;
        }
        let d = lookfrom.sub(lookat);
        proof {
            crate::vec3::lemma_dot_fits(d, d, 0x200_0000, 0x200_0000);
        }
        if d.sqnorm() < 1 {
            return false;
        }
        let w = d.normalize();
        proof {
            lemma_cross_fits(vup, w, 0x100_0000, 131072);
        }
        let c = vup.cross(w);
        proof {
            crate::vec3::lemma_dot_fits(c, c, 0x400_0000, 0x400_0000);
        }
        c.sqnorm() >= 1
    }

    /// The origin offset induced by a lens-disk sample `d`: the sample
    /// scaled by the lens radius, taken in the camera's `(u, v)` basis.
    pub open spec fn offset_spec(self, d: Vec3) -> Vec3 {
        let rdx = fp_mul_spec(d.x as int, self.lens_radius as int);
        let rdy = fp_mul_spec(d.y as int, self.lens_radius as int);
        Vec3 {
            x: (fp_mul_spec(self.u.x as int, rdx) + fp_mul_spec(self.v.x as int, rdy)) as i64,
            y: (fp_mul_spec(self.u.y as int, rdx) + fp_mul_spec(self.v.y as int, rdy)) as i64,
            z: (fp_mul_spec(self.u.z as int, rdx) + fp_mul_spec(self.v.z as int, rdy)) as i64,
        }
    }

    /// The deterministic ray direction for viewport coordinates `(s, t)`
    /// and a lens offset.
    pub open spec fn ray_dir_spec(self, s: int, t: int, offset: Vec3) -> (int, int, int) {
        (
            self.lower_left_corner.x + fp_mul_spec(self.horizontal.x as int, s) + fp_mul_spec(
                self.vertical.x as int,
                t,
            ) - self.origin.x - offset.x,
            self.lower_left_corner.y + fp_mul_spec(self.horizontal.y as int, s) + fp_mul_spec(
                self.vertical.y as int,
                t,
            ) - self.origin.y - offset.y,
            self.lower_left_corner.z + fp_mul_spec(self.horizontal.z as int, s) + fp_mul_spec(
                self.vertical.z as int,
                t,
            ) - self.origin.z - offset.z,
        )
    }

    /// A camera ray through viewport point `(s, t)`, with its origin
    /// offset by a random lens sample (depth of field).  The ray is always
    /// inside the representable world, and is exactly the ray the drawn
    /// disk sample induces: its origin is the camera origin plus the lens
    /// offset and its direction aims at the viewport point past that
    /// offset.  With a closed aperture the offset vanishes and the ray is
    /// fully deterministic.
    pub fn get_ray(&self, s: i64, t: i64, rng: &mut StdRng) -> (r: Ray)
        requires
            self.wf(),
            0 <= s <= FP_ONE,
            0 <= t <= FP_ONE,
        ensures
            ray_in_bounds(r),
            exists|d: Vec3|
                {
                    &&& d.z == 0
                    &&& d.bounded(FP_ONE as int)
                    &&& 0 <= crate::vec3::sqnorm_spec(d) < FP_ONE
                    &&& r.origin.x == self.origin.x + self.offset_spec(d).x
                    &&& r.origin.y == self.origin.y + self.offset_spec(d).y
                    &&& r.origin.z == self.origin.z + self.offset_spec(d).z
                    &&& r.direction.x == self.ray_dir_spec(s as int, t as int, self.offset_spec(d)).0
                    &&& r.direction.y == self.ray_dir_spec(s as int, t as int, self.offset_spec(d)).1
                    &&& r.direction.z == self.ray_dir_spec(s as int, t as int, self.offset_spec(d)).2
                },
            self.lens_radius == 0 ==> r.origin == self.origin,
            self.lens_radius == 0 ==> {
                let dir = self.ray_dir_spec(
                    s as int,
                    t as int,
                    Vec3 { x: 0, y: 0, z: 0 },
                );
                r.direction.x == dir.0 && r.direction.y == dir.1 && r.direction.z == dir.2
            },
    {
        let disk = random_in_unit_disk(rng);
        proof {
            lemma_fp_mul_fits(disk.x as int, self.lens_radius as int, 65536, 131072);
            lemma_fp_mul_fits(disk.y as int, self.lens_radius as int, 65536, 131072);
            lemma_fp_mul_fits(disk.z as int, self.lens_radius as int, 65536, 131072);
        }
        let rd = disk.scale(self.lens_radius);
        proof {
            lemma_fp_mul_fits(self.u.x as int, rd.x as int, 131072, 131072);
            lemma_fp_mul_fits(self.u.y as int, rd.x as int, 131072, 131072);
            lemma_fp_mul_fits(self.u.z as int, rd.x as int, 131072, 131072);
            lemma_fp_mul_fits(self.v.x as int, rd.y as int, 524288, 131072);
            lemma_fp_mul_fits(self.v.y as int, rd.y as int, 524288, 131072);
            lemma_fp_mul_fits(self.v.z as int, rd.y as int, 524288, 131072);
            if self.lens_radius == 0 {
                assert(fp_mul_spec(disk.x as int, 0) == 0) by (nonlinear_arith);
                assert(fp_mul_spec(disk.y as int, 0) == 0) by (nonlinear_arith);
                assert(fp_mul_spec(disk.z as int, 0) == 0) by (nonlinear_arith);
                assert(fp_mul_spec(self.u.x as int, 0) == 0) by (nonlinear_arith);
                assert(fp_mul_spec(self.u.y as int, 0) == 0) by (nonlinear_arith);
                assert(fp_mul_spec(self.u.z as int, 0) == 0) by (nonlinear_arith);
                assert(fp_mul_spec(self.v.x as int, 0) == 0) by (nonlinear_arith);
                assert(fp_mul_spec(self.v.y as int, 0) == 0) by (nonlinear_arith);
                assert(fp_mul_spec(self.v.z as int, 0) == 0) by (nonlinear_arith);
            }
        }
        let offset = self.u.scale(rd.x).add(self.v.scale(rd.y));
        proof {
            lemma_fp_mul_fits(self.horizontal.x as int, s as int, 0x1000_0000, 65536);
            lemma_fp_mul_fits(self.horizontal.y as int, s as int, 0x1000_0000, 65536);
            lemma_fp_mul_fits(self.horizontal.z as int, s as int, 0x1000_0000, 65536);
            lemma_fp_mul_fits(self.vertical.x as int, t as int, 0x1000_0000, 65536);
            lemma_fp_mul_fits(self.vertical.y as int, t as int, 0x1000_0000, 65536);
            lemma_fp_mul_fits(self.vertical.z as int, t as int, 0x1000_0000, 65536);
        }
        let origin2 = self.origin.add(offset);
        let dir = self.lower_left_corner.add(self.horizontal.scale(s)).add(
            self.vertical.scale(t),
        ).sub(self.origin).sub(offset);
        let r = Ray::new(origin2, dir);
        proof {
            assert(offset == self.offset_spec(disk));
            assert(exists|d: Vec3|
                {
                    &&& d.z == 0
                    &&& d.bounded(FP_ONE as int)
                    &&& 0 <= crate::vec3::sqnorm_spec(d) < FP_ONE
                    &&& r.origin.x == self.origin.x + self.offset_spec(d).x
                    &&& r.origin.y == self.origin.y + self.offset_spec(d).y
                    &&& r.origin.z == self.origin.z + self.offset_spec(d).z
                    &&& r.direction.x == self.ray_dir_spec(s as int, t as int, self.offset_spec(d)).0
                    &&& r.direction.y == self.ray_dir_spec(s as int, t as int, self.offset_spec(d)).1
                    &&& r.direction.z == self.ray_dir_spec(s as int, t as int, self.offset_spec(d)).2
                }) by {
                assert(disk.z == 0 && disk.bounded(FP_ONE as int) && 0 <= crate::vec3::sqnorm_spec(
                    disk,
                ) < FP_ONE && r.origin.x == self.origin.x + self.offset_spec(disk).x && r.origin.y
                    == self.origin.y + self.offset_spec(disk).y && r.origin.z == self.origin.z
                    + self.offset_spec(disk).z && r.direction.x == self.ray_dir_spec(
                    s as int,
                    t as int,
                    self.offset_spec(disk),
                ).0 && r.direction.y == self.ray_dir_spec(s as int, t as int, self.offset_spec(disk)).1
                    && r.direction.z == self.ray_dir_spec(
                    s as int,
                    t as int,
                    self.offset_spec(disk),
                ).2);
            }
        }
        r
    }
}

} // verus!
