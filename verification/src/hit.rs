//! The geometry model: ray/primitive intersection.
//!
//! `Hittable` is the capability "can be intersected by a ray within a
//! parametric interval"; `Sphere` is the concrete primitive and
//! `HittableList` the aggregate that resolves the nearest hit.  The sphere
//! quadratic is solved in double-wide integers (scale 2^32), so its
//! contract states the exact root.

use vstd::prelude::*;
use crate::fp::{
    abs_int, fits, idiv, idiv128, isqrt_u128, lemma_fp_mul_fits, lemma_fp_mul_neg,
    lemma_fp_sq_unit, lemma_mul_bound, lemma_tdiv_abs, lemma_tdiv_bound, lemma_tdiv_lower,
    sqrt_spec, tdiv, FP_ONE,
};
use crate::material::Material;
use crate::ray::{at_spec, Ray};
use crate::vec3::{dot_fits, dot_spec, lemma_dot_fits, lemma_sqnorm_nonneg, unit_spec, Vec3};

verus! {

/// Upper bound of the ray parameter interval the renderer works in.
pub const T_FAR: i64 = 0x4000_0000;

/// Magnitude bound for ray origins and sphere centers.
pub const POS_BOUND: i64 = 0x1000_0000;

/// Magnitude bound for ray directions.
pub const DIR_BOUND: i64 = 0x8000_0000;

/// Magnitude above which the center offset of a hit is scaled down by
/// 2^8 before normalizing, to stay in the normalizer's range.
pub const RESCALE_HI: i64 = 0x20_0000_0000;

/// Magnitude at or below which the center offset of a hit is scaled up by
/// 2^8 before normalizing, so sub-resolution offsets keep a direction.
pub const RESCALE_LO: i64 = 255;

/// A ray whose origin and direction are inside the representable world.
pub open spec fn ray_in_bounds(r: Ray) -> bool {
    &&& r.origin.bounded(POS_BOUND as int)
    &&& r.direction.bounded(DIR_BOUND as int)
}

/// One successful intersection: the hit point, its ray parameter, the
/// surface normal (always oriented against the incoming ray, with
/// `front_face` recording whether the outward normal had to be flipped)
/// and the material that governs the surface.
#[derive(Clone, Copy, PartialEq, Eq, Structural, Debug)]
pub struct HitRecord {
    pub p: Vec3,
    pub t: i64,
    pub normal: Vec3,
    pub front_face: bool,
    pub material: Material,
}

impl HitRecord {
    /// Store the outward normal oriented against the ray: flipped when the
    /// ray and the outward normal point the same way.  The stored normal
    /// always satisfies `dot(ray.direction, normal) <= 0`.
    pub fn set_face_normal(&mut self, ray: &Ray, outward_normal: &Vec3)
        requires
            dot_fits(ray.direction, *outward_normal),
            fits(-outward_normal.x),
            fits(-outward_normal.y),
            fits(-outward_normal.z),
        ensures
            final(self).front_face == (dot_spec(ray.direction, *outward_normal) < 0),
            final(self).normal == if final(self).front_face {
                *outward_normal
            } else {
                (Vec3 { x: (-outward_normal.x) as i64, y: (-outward_normal.y) as i64, z: (
                -outward_normal.z) as i64 })
            },
            dot_spec(ray.direction, final(self).normal) <= 0,
            final(self).p == old(self).p,
            final(self).t == old(self).t,
            final(self).material == old(self).material,
    {
        proof {
            lemma_fp_mul_neg(ray.direction.x as int, outward_normal.x as int);
            lemma_fp_mul_neg(ray.direction.y as int, outward_normal.y as int);
            lemma_fp_mul_neg(ray.direction.z as int, outward_normal.z as int);
        }
        self.front_face = ray.direction.dot(*outward_normal) < 0;
        self.normal = if self.front_face {
            *outward_normal
        } else {
            outward_normal.neg()
        };
    }
}

/// The capability "can be intersected by a ray within `[t_min, t_max]`".
/// `hit` returns the nearest valid intersection, exactly as `hit_spec`
/// describes it, or nothing.
pub trait Hittable: Sized {
    /// Well-formedness of the primitive (bounds and material validity).
    spec fn wf(&self) -> bool;

    /// The exact outcome of `hit`.
    spec fn hit_spec(&self, ray: Ray, t_min: i64, t_max: i64) -> Option<HitRecord>;

    fn hit(&self, ray: &Ray, t_min: i64, t_max: i64) -> (r: Option<HitRecord>)
        requires
            self.wf(),
            ray_in_bounds(*ray),
            0 <= t_min,
            t_max <= T_FAR,
        ensures
            r == self.hit_spec(*ray, t_min, t_max),
            r matches Some(rec) ==> {
                &&& t_min <= rec.t <= t_max
                &&& dot_spec(ray.direction, rec.normal) <= 0
                &&& rec.normal.bounded(2 * FP_ONE)
                &&& rec.p.bounded(0x4000_0000_0000)
                &&& rec.material.wf()
            },
    ;
}

/// A sphere: center, signed radius (a negative radius turns the normals
/// inside out, for hollow shells) and the material of its surface.
#[derive(Clone, Copy, PartialEq, Eq, Structural, Debug)]
pub struct Sphere {
    pub center: Vec3,
    pub radius: i64,
    pub material: Material,
}

/// The exact (unscaled) dot product at scale 2^32, as used by the sphere
/// quadratic.
pub open spec fn wide_dot_spec(u: Vec3, v: Vec3) -> int {
    u.x * v.x + u.y * v.y + u.z * v.z
}

/// Wide dot product over `i128`, exact.
fn wide_dot(u: &Vec3, v: &Vec3) -> (r: i128)
    requires
        u.bounded(0x8000_0000),
        v.bounded(0x8000_0000),
    ensures
        r == wide_dot_spec(*u, *v),
        -0xC000_0000_0000_0000 <= r <= 0xC000_0000_0000_0000,
{
    proof {
        lemma_mul_bound(u.x as int, v.x as int, 0x8000_0000, 0x8000_0000);
        lemma_mul_bound(u.y as int, v.y as int, 0x8000_0000, 0x8000_0000);
        lemma_mul_bound(u.z as int, v.z as int, 0x8000_0000, 0x8000_0000);
    }
    (u.x as i128) * (v.x as i128) + (u.y as i128) * (v.y as i128) + (u.z as i128) * (v.z as i128)
}

impl Sphere {
    /// The quadratic coefficient `a = d . d` of the sphere equation the
    /// hit test solves, at scale 2^32.
    pub open spec fn quad_a_spec(self, ray: Ray) -> int {
        let dx = ray.direction.x as int;
        let dy = ray.direction.y as int;
        let dz = ray.direction.z as int;
        dx * dx + dy * dy + dz * dz
    }

    /// Half the linear coefficient, `h = (origin - center) . d`, at
    /// scale 2^32.
    pub open spec fn quad_hb_spec(self, ray: Ray) -> int {
        let dx = ray.direction.x as int;
        let dy = ray.direction.y as int;
        let dz = ray.direction.z as int;
        let ocx = ray.origin.x - self.center.x;
        let ocy = ray.origin.y - self.center.y;
        let ocz = ray.origin.z - self.center.z;
        ocx * dx + ocy * dy + ocz * dz
    }

    /// The constant coefficient, `c = |origin - center|^2 - radius^2`, at
    /// scale 2^32.
    pub open spec fn quad_c_spec(self, ray: Ray) -> int {
        let ocx = ray.origin.x - self.center.x;
        let ocy = ray.origin.y - self.center.y;
        let ocz = ray.origin.z - self.center.z;
        ocx * ocx + ocy * ocy + ocz * ocz - (self.radius as int) * (self.radius as int)
    }

    /// The discriminant `h^2 - a c`, at scale 2^64.
    pub open spec fn quad_disc_spec(self, ray: Ray) -> int {
        self.quad_hb_spec(ray) * self.quad_hb_spec(ray) - self.quad_a_spec(ray) * self.quad_c_spec(
            ray,
        )
    }

    /// The exact root the quadratic yields within `[t_min, t_max]`, if any:
    /// the smaller root only, as the renderer's sweep expects.
    #[verifier::opaque]
    pub open spec fn hit_t_spec(self, ray: Ray, t_min: int, t_max: int) -> Option<int> {
        let a = self.quad_a_spec(ray);
        let hb = self.quad_hb_spec(ray);
        let disc = self.quad_disc_spec(ray);
        if a == 0 {
            None
        } else if disc < 0 {
            None
        } else {
            let sd = sqrt_spec(disc as nat) as int;
            let root = tdiv((-hb - sd) * 65536, a);
            if root < t_min || root > t_max {
                None
            } else {
                Some(root)
            }
        }
    }

    /// The record built for an accepted root: the hit point, the
    /// normalized outward normal (following the sign of the radius) and
    /// the face orientation.  Before normalizing, the offset from the
    /// center is rescaled by 2^8 when it lies outside the normalizer's
    /// range -- upward at sub-resolution magnitudes, downward at very
    /// large ones -- which keeps its direction (up to one truncation ulp
    /// when scaling down).  An offset that is exactly zero yields the
    /// zero normal, as dividing it by the radius would.
    #[verifier::opaque]
    pub open spec fn hit_rec_spec(self, ray: Ray, root: int) -> HitRecord {
        let p = Vec3 {
            x: at_spec(ray, root).0 as i64,
            y: at_spec(ray, root).1 as i64,
            z: at_spec(ray, root).2 as i64,
        };
        let dvec = Vec3 {
            x: (p.x - self.center.x) as i64,
            y: (p.y - self.center.y) as i64,
            z: (p.z - self.center.z) as i64,
        };
        let outward0 = if dvec == (Vec3 { x: 0, y: 0, z: 0 }) {
            Vec3 { x: 0, y: 0, z: 0 }
        } else {
            let dn = if !dvec.bounded(RESCALE_HI as int) {
                Vec3 {
                    x: tdiv(dvec.x as int, 256) as i64,
                    y: tdiv(dvec.y as int, 256) as i64,
                    z: tdiv(dvec.z as int, 256) as i64,
                }
            } else if dvec.bounded(RESCALE_LO as int) {
                Vec3 { x: (dvec.x * 256) as i64, y: (dvec.y * 256) as i64, z: (dvec.z * 256) as i64 }
            } else {
                dvec
            };
            unit_spec(dn)
        };
        let outward = if self.radius < 0 {
            Vec3 { x: (-outward0.x) as i64, y: (-outward0.y) as i64, z: (-outward0.z) as i64 }
        } else {
            outward0
        };
        let ff = dot_spec(ray.direction, outward) < 0;
        let normal = if ff {
            outward
        } else {
            Vec3 { x: (-outward.x) as i64, y: (-outward.y) as i64, z: (-outward.z) as i64 }
        };
        HitRecord { p, t: root as i64, normal, front_face: ff, material: self.material }
    }
}

/// An ordered collection of primitives, hit-tested as a whole.
pub struct HittableList<T: Hittable> {
    pub objects: Vec<T>,
}

impl<T: Hittable> HittableList<T> {
    /// Every element is well-formed.
    pub open spec fn wf(&self) -> bool {
        forall|i: int| 0 <= i < self.objects.len() ==> (#[trigger] self.objects[i]).wf()
    }

    /// The exact outcome of the nearest-hit sweep: scan the elements in
    /// order, shrinking the upper bound of the interval to the closest
    /// parameter found so far.
    pub open spec fn scan_spec(
        objs: Seq<T>,
        ray: Ray,
        t_min: i64,
        closest: i64,
        best: Option<HitRecord>,
    ) -> Option<HitRecord>
        decreases objs.len(),
    {
        if objs.len() == 0 {
            best
        } else {
            match objs[0].hit_spec(ray, t_min, closest) {
                Some(rec) => Self::scan_spec(objs.drop_first(), ray, t_min, rec.t, Some(rec)),
                None => Self::scan_spec(objs.drop_first(), ray, t_min, closest, best),
            }
        }
    }

    pub fn new() -> (r: Self)
        ensures
            r.objects@ =~= Seq::<T>::empty(),
            r.wf(),
    {
        HittableList { objects: Vec::new() }
    }

    /// Append a primitive to the scene.
    pub fn add(&mut self, object: T)
        ensures
            final(self).objects@ =~= old(self).objects@.push(object),
    {
        self.objects.push(object);
    }

    /// Resolve the nearest hit among all elements, or nothing.
    pub fn hit(&self, ray: &Ray, t_min: i64, t_max: i64) -> (r: Option<HitRecord>)
        requires
            self.wf(),
            ray_in_bounds(*ray),
            0 <= t_min,
            t_max <= T_FAR,
        ensures
            r == Self::scan_spec(self.objects@, *ray, t_min, t_max, None::<HitRecord>),
            r matches Some(rec) ==> {
                &&& t_min <= rec.t <= t_max
                &&& dot_spec(ray.direction, rec.normal) <= 0
                &&& rec.normal.bounded(2 * FP_ONE)
                &&& rec.p.bounded(0x4000_0000_0000)
                &&& rec.material.wf()
            },
    {
        let mut hit_anything: Option<HitRecord> = None;
        let mut closest_so_far: i64 = t_max;
        let mut i: usize = 0;
        let n = self.objects.len();
        proof {
            assert(self.objects@.skip(0) =~= self.objects@);
        }
        while i < n
            invariant
                self.wf(),
                ray_in_bounds(*ray),
                0 <= t_min,
                closest_so_far <= t_max <= T_FAR,
                n == self.objects.len(),
                i <= n,
                Self::scan_spec(
                    self.objects@.skip(i as int),
                    *ray,
                    t_min,
                    closest_so_far,
                    hit_anything,
                ) == Self::scan_spec(self.objects@, *ray, t_min, t_max, None::<HitRecord>),
                hit_anything matches Some(rec) ==> {
                    &&& t_min <= rec.t <= t_max
                    &&& rec.t == closest_so_far
                    &&& dot_spec(ray.direction, rec.normal) <= 0
                    &&& rec.normal.bounded(2 * FP_ONE)
                    &&& rec.p.bounded(0x4000_0000_0000)
                    &&& rec.material.wf()
                },
                hit_anything is None ==> closest_so_far == t_max,
            decreases n - i,
        {
            proof {
                assert(self.objects@.skip(i as int)[0] == self.objects@[i as int]);
                assert(self.objects@.skip(i as int).drop_first() =~= self.objects@.skip(
                    i as int + 1,
                ));
            }
            let object = &self.objects[i];
            match object.hit(ray, t_min, closest_so_far) {
                Some(hit_record) => {
                    closest_so_far = hit_record.t;
                    hit_anything = Some(hit_record);
                },
                None => (),
            }
            i = i + 1;
        }
        proof {
            assert(self.objects@.skip(n as int) =~= Seq::<T>::empty());
        }
        hit_anything
    }
}

/// An accepted root approximately satisfies the sphere quadratic
/// `a t^2 + 2 h t + c = 0` (coefficients at scale 2^32, `t` a fixed-point
/// parameter): the residual `e`, scaled by `a`, is bounded by the
/// square-root and division quantization alone.  This is the fixed-point
/// form of "the returned parameter lies on the sphere surface": dividing
/// through by the scales, the real residual vanishes as the quantization
/// steps do.
pub proof fn lemma_root_on_quadratic(s: Sphere, ray: Ray, t_min: i64, t_max: i64)
    ensures
        s.hit_t_spec(ray, t_min as int, t_max as int) matches Some(root) ==> {
            let a = s.quad_a_spec(ray);
            let hb = s.quad_hb_spec(ray);
            let c = s.quad_c_spec(ray);
            let sd = crate::fp::sqrt_spec(s.quad_disc_spec(ray) as nat) as int;
            let e = a * (root * root) + 2 * (hb * 65536) * root + c * (65536 * 65536);
            abs_int(a * e) <= 2 * (sd * 0x1_0000_0000) + a * (2 * (sd * 65536) + a)
        },
{
    reveal(Sphere::hit_t_spec);
    let a = s.quad_a_spec(ray);
    let hb = s.quad_hb_spec(ray);
    let c = s.quad_c_spec(ray);
    let disc = s.quad_disc_spec(ray);
    if s.hit_t_spec(ray, t_min as int, t_max as int) is Some {
        let sd = crate::fp::sqrt_spec(disc as nat) as int;
        let n = (-hb - sd) * 65536;
        let root = tdiv(n, a);
        assert(s.hit_t_spec(ray, t_min as int, t_max as int) == Some(root));
        // `a` is a sum of squares and is not zero on the accepted path.
        assert(ray.direction.x as int * ray.direction.x as int >= 0) by (nonlinear_arith);
        assert(ray.direction.y as int * ray.direction.y as int >= 0) by (nonlinear_arith);
        assert(ray.direction.z as int * ray.direction.z as int >= 0) by (nonlinear_arith);
        assert(a >= 1);
        crate::fp::lemma_sqrt_spec_bracket(disc as nat);
        assert((sd + 1) * (sd + 1) == sd * sd + 2 * sd + 1) by (nonlinear_arith);
        let delta = disc - sd * sd;
        assert(0 <= delta <= 2 * sd);
        crate::fp::lemma_tdiv_rem(n, a);
        let rem = n - a * root;
        assert(abs_int(rem) < a);
        let e = a * (root * root) + 2 * (hb * 65536) * root + c * (65536 * 65536);
        // The residual identity, in three steps: scale by `a`, substitute
        // `a root = (-h - sd) 2^16 - rem`, and expand the discriminant.
        let x = a * root;
        assert(a * e == x * x + 2 * (hb * 65536) * x + (a * c) * (65536 * 65536))
            by (nonlinear_arith)
            requires
                x == a * root,
                e == a * (root * root) + 2 * (hb * 65536) * root + c * (65536 * 65536),
        ;
        assert(x * x + 2 * (hb * 65536) * x + (a * c) * (65536 * 65536) == (sd * 65536 + rem) * (
        sd * 65536 + rem) - (hb * hb - a * c) * (65536 * 65536)) by (nonlinear_arith)
            requires
                x == (-hb - sd) * 65536 - rem,
        ;
        assert((sd * 65536 + rem) * (sd * 65536 + rem) - (hb * hb - a * c) * (65536 * 65536) == -(
        delta * 0x1_0000_0000) + rem * (2 * (sd * 65536) + rem)) by (nonlinear_arith)
            requires
                delta == disc - sd * sd,
                disc == hb * hb - a * c,
        ;
        assert(a * e == -(delta * 0x1_0000_0000) + rem * (2 * (sd * 65536) + rem));
        assert(abs_int(a * e) <= 2 * (sd * 0x1_0000_0000) + a * (2 * (sd * 65536) + a))
            by (nonlinear_arith)
            requires
                a * e == -(delta * 0x1_0000_0000) + rem * (2 * (sd * 65536) + rem),
                0 <= delta <= 2 * sd,
                abs_int(rem) < a,
                0 <= sd,
                1 <= a,
        ;
    }
}

/// An accepted sphere hit lies inside the interval it was queried with.
proof fn lemma_sphere_hit_range(s: Sphere, ray: Ray, t_min: i64, t_max: i64)
    ensures
        s.hit_spec(ray, t_min, t_max) matches Some(rec) ==> t_min <= rec.t <= t_max,
{
    reveal(Sphere::hit_t_spec);
    reveal(Sphere::hit_rec_spec);
}

/// Shrinking the upper bound of the interval keeps exactly the hits whose
/// parameter still fits: the root of the quadratic does not depend on the
/// interval, only its acceptance does.
proof fn lemma_sphere_hit_interval(s: Sphere, ray: Ray, t_min: i64, t1: i64, t2: i64)
    requires
        t1 <= t2,
    ensures
        s.hit_spec(ray, t_min, t1) == match s.hit_spec(ray, t_min, t2) {
            Some(rec) => if rec.t <= t1 {
                Some(rec)
            } else {
                None
            },
            None => None,
        },
{
    reveal(Sphere::hit_t_spec);
    reveal(Sphere::hit_rec_spec);
    let r1 = s.hit_t_spec(ray, t_min as int, t1 as int);
    let r2 = s.hit_t_spec(ray, t_min as int, t2 as int);
    assert(r1 == match r2 {
        Some(root) => if root <= t1 as int {
            Some(root)
        } else {
            None
        },
        None => None,
    });
}

/// The nearest-hit sweep returns the minimum-parameter hit.  Relative to
/// the accumulator: the result is the best seen so far or a hit of some
/// element, its parameter never exceeds the running bound, and no element
/// hits the interval with a smaller parameter.
#[verifier::rlimit(100)]
proof fn lemma_scan_argmin(
    objs: Seq<Sphere>,
    ray: Ray,
    t_min: i64,
    closest: i64,
    best: Option<HitRecord>,
)
    requires
        best matches Some(b) ==> b.t == closest,
    ensures
        ({
            let r = HittableList::<Sphere>::scan_spec(objs, ray, t_min, closest, best);
            &&& (r is None ==> best is None)
            &&& (r is None ==> forall|j: int|
                0 <= j < objs.len() ==> (#[trigger] objs[j]).hit_spec(ray, t_min, closest)
                    is None)
            &&& (r matches Some(rec) ==> rec.t <= closest)
            &&& (r matches Some(rec) ==> (best == Some(rec) || exists|i: int|
                0 <= i < objs.len() && (#[trigger] objs[i]).hit_spec(ray, t_min, closest)
                    == Some(rec)))
            &&& (r matches Some(rec) ==> forall|j: int|
                0 <= j < objs.len() ==> match (#[trigger] objs[j]).hit_spec(
                    ray,
                    t_min,
                    closest,
                ) {
                    Some(rj) => rec.t <= rj.t,
                    None => true,
                })
        }),
    decreases objs.len(),
{
    let r = HittableList::<Sphere>::scan_spec(objs, ray, t_min, closest, best);
    if objs.len() == 0 {
    } else {
        let first = objs[0];
        let rest = objs.drop_first();
        assert(forall|j: int| 0 <= j < rest.len() ==> rest[j] == objs[j + 1]);
        lemma_sphere_hit_range(first, ray, t_min, closest);
        match first.hit_spec(ray, t_min, closest) {
            Some(rec0) => {
                lemma_scan_argmin(rest, ray, t_min, rec0.t, Some(rec0));
                let rr = HittableList::<Sphere>::scan_spec(
                    rest,
                    ray,
                    t_min,
                    rec0.t,
                    Some(rec0),
                );
                assert(r == rr);
                let rec = rr.unwrap();
                // The result is the first element's hit or some later hit,
                // carried up to the wider interval.
                if rr != Some(rec0) {
                    let i = choose|i: int|
                        0 <= i < rest.len() && (#[trigger] rest[i]).hit_spec(ray, t_min, rec0.t)
                            == Some(rec);
                    lemma_sphere_hit_interval(rest[i], ray, t_min, rec0.t, closest);
                    assert(objs[i + 1].hit_spec(ray, t_min, closest) == Some(rec));
                } else {
                    assert(objs[0].hit_spec(ray, t_min, closest) == Some(rec0));
                }
                // No element of the wider interval beats the result.
                assert forall|j: int| 0 <= j < objs.len() implies match (#[trigger] objs[j]).hit_spec(
                    ray,
                    t_min,
                    closest,
                ) {
                    Some(rj) => rec.t <= rj.t,
                    None => true,
                } by {
                    if j == 0 {
                    } else {
                        lemma_sphere_hit_interval(objs[j], ray, t_min, rec0.t, closest);
                        assert(rest[j - 1] == objs[j]);
                    }
                }
            },
            None => {
                lemma_scan_argmin(rest, ray, t_min, closest, best);
                let rr = HittableList::<Sphere>::scan_spec(rest, ray, t_min, closest, best);
                assert(r == rr);
                if rr is None {
                    assert forall|j: int| 0 <= j < objs.len() implies (#[trigger] objs[j]).hit_spec(
                        ray,
                        t_min,
                        closest,
                    ) is None by {
                        if j > 0 {
                            assert(rest[j - 1] == objs[j]);
                            assert(rest[j - 1].hit_spec(ray, t_min, closest) is None);
                        }
                    }
                }
                if let Some(rec) = rr {
                    if rr != best {
                        let i = choose|i: int|
                            0 <= i < rest.len() && (#[trigger] rest[i]).hit_spec(
                                ray,
                                t_min,
                                closest,
                            ) == Some(rec);
                        assert(objs[i + 1].hit_spec(ray, t_min, closest) == Some(rec));
                    }
                    assert forall|j: int| 0 <= j < objs.len() implies match (
                    #[trigger] objs[j]).hit_spec(ray, t_min, closest) {
                        Some(rj) => rec.t <= rj.t,
                        None => true,
                    } by {
                        if j > 0 {
                            assert(rest[j - 1] == objs[j]);
                        }
                    }
                }
            },
        }
    }
}

/// The nearest-hit sweep over a sequence of spheres agrees with
/// intersecting every sphere independently over the whole interval and
/// taking the hit of least parameter: a miss means every sphere misses,
/// and a hit is some sphere's hit, no deeper than any other sphere's.
pub proof fn lemma_list_hit_is_argmin(objs: Seq<Sphere>, ray: Ray, t_min: i64, t_max: i64)
    ensures
        ({
            let r = HittableList::<Sphere>::scan_spec(objs, ray, t_min, t_max, None::<HitRecord>);
            &&& (r is None ==> forall|j: int|
                0 <= j < objs.len() ==> (#[trigger] objs[j]).hit_spec(ray, t_min, t_max) is None)
            &&& (r matches Some(rec) ==> exists|i: int|
                0 <= i < objs.len() && (#[trigger] objs[i]).hit_spec(ray, t_min, t_max) == Some(
                    rec,
                ))
            &&& (r matches Some(rec) ==> forall|j: int|
                0 <= j < objs.len() ==> match (#[trigger] objs[j]).hit_spec(ray, t_min, t_max) {
                    Some(rj) => rec.t <= rj.t,
                    None => true,
                })
        }),
{
    lemma_scan_argmin(objs, ray, t_min, t_max, None::<HitRecord>);
}

impl Hittable for Sphere {
    open spec fn wf(&self) -> bool {
        &&& self.center.bounded(POS_BOUND as int)
        &&& self.radius != 0
        &&& -POS_BOUND <= self.radius <= POS_BOUND
        &&& self.material.wf()
    }

    open spec fn hit_spec(&self, ray: Ray, t_min: i64, t_max: i64) -> Option<HitRecord> {
        match self.hit_t_spec(ray, t_min as int, t_max as int) {
            None => None,
            Some(root) => Some(self.hit_rec_spec(ray, root)),
        }
    }

    #[verifier::rlimit(100)]
    fn hit(&self, ray: &Ray, t_min: i64, t_max: i64) -> (r: Option<HitRecord>)
        ensures
            r is Some <==> self.hit_t_spec(*ray, t_min as int, t_max as int) is Some,
    {
        proof {
            reveal(Sphere::hit_t_spec);
            reveal(Sphere::hit_rec_spec);
        }
        let oc = ray.origin.sub(self.center);
        let a = wide_dot(&ray.direction, &ray.direction);
        let half_b = wide_dot(&oc, &ray.direction);
        let cc = wide_dot(&oc, &oc);
        proof {
            lemma_mul_bound(self.radius as int, self.radius as int, 0x1000_0000, 0x1000_0000);
        }
        let c = cc - (self.radius as i128) * (self.radius as i128);
        if a == 0 {
            return None;
        }
        proof {
            lemma_mul_bound(oc.x as int, ray.direction.x as int, 0x2000_0000, 0x8000_0000);
            lemma_mul_bound(oc.y as int, ray.direction.y as int, 0x2000_0000, 0x8000_0000);
            lemma_mul_bound(oc.z as int, ray.direction.z as int, 0x2000_0000, 0x8000_0000);
            lemma_mul_bound(oc.x as int, oc.x as int, 0x2000_0000, 0x2000_0000);
            lemma_mul_bound(oc.y as int, oc.y as int, 0x2000_0000, 0x2000_0000);
            lemma_mul_bound(oc.z as int, oc.z as int, 0x2000_0000, 0x2000_0000);
            assert(-0x3000_0000_0000_0000 <= half_b <= 0x3000_0000_0000_0000);
            assert(-0x1000_0000_0000_0000 <= c <= 0x1000_0000_0000_0000);
            lemma_mul_bound(half_b as int, half_b as int, 0x3000_0000_0000_0000, 0x3000_0000_0000_0000);
            lemma_mul_bound(a as int, c as int, 0xC000_0000_0000_0000, 0x1000_0000_0000_0000);
            assert(ray.direction.x as int * ray.direction.x as int >= 0) by (nonlinear_arith);
            assert(ray.direction.y as int * ray.direction.y as int >= 0) by (nonlinear_arith);
            assert(ray.direction.z as int * ray.direction.z as int >= 0) by (nonlinear_arith);
        }
        let discriminant = half_b * half_b - a * c;
        if discriminant < 0 {
            return None;
        }
        let sqrtd128: u128 = isqrt_u128(discriminant as u128);
        let sqrtd: i128 = sqrtd128 as i128;
        let num: i128 = (-half_b - sqrtd) * 65536;
        let root128: i128 = idiv128(num, a);
        if root128 < (t_min as i128) || root128 > (t_max as i128) {
            return None;
        }
        let root: i64 = root128 as i64;
        proof {
            lemma_fp_mul_fits(ray.direction.x as int, root as int, 0x8000_0000, 0x4000_0000);
            lemma_fp_mul_fits(ray.direction.y as int, root as int, 0x8000_0000, 0x4000_0000);
            lemma_fp_mul_fits(ray.direction.z as int, root as int, 0x8000_0000, 0x4000_0000);
        }
        let p = ray.at(root);
        let dvec = p.sub(self.center);
        let outward0: Vec3;
        if dvec.x == 0 && dvec.y == 0 && dvec.z == 0 {
            outward0 = Vec3 { x: 0, y: 0, z: 0 };
        } else if dvec.x < -RESCALE_HI || dvec.x > RESCALE_HI || dvec.y < -RESCALE_HI || dvec.y
            > RESCALE_HI || dvec.z < -RESCALE_HI || dvec.z > RESCALE_HI {
            proof {
                lemma_tdiv_bound(dvec.x as int, 256);
                lemma_tdiv_bound(dvec.y as int, 256);
                lemma_tdiv_bound(dvec.z as int, 256);
                lemma_tdiv_abs(dvec.x as int, 256);
                lemma_tdiv_abs(dvec.y as int, 256);
                lemma_tdiv_abs(dvec.z as int, 256);
            }
            let dn = Vec3 { x: idiv(dvec.x, 256), y: idiv(dvec.y, 256), z: idiv(dvec.z, 256) };
            proof {
                lemma_sqnorm_nonneg(dn);
                if dvec.x < -RESCALE_HI || dvec.x > RESCALE_HI {
                    lemma_tdiv_lower(abs_int(dvec.x as int), 256, 256);
                    lemma_fp_sq_unit(dn.x as int);
                } else if dvec.y < -RESCALE_HI || dvec.y > RESCALE_HI {
                    lemma_tdiv_lower(abs_int(dvec.y as int), 256, 256);
                    lemma_fp_sq_unit(dn.y as int);
                } else {
                    lemma_tdiv_lower(abs_int(dvec.z as int), 256, 256);
                    lemma_fp_sq_unit(dn.z as int);
                }
            }
            outward0 = dn.normalize();
        } else if -RESCALE_LO <= dvec.x && dvec.x <= RESCALE_LO && -RESCALE_LO <= dvec.y && dvec.y
            <= RESCALE_LO && -RESCALE_LO <= dvec.z && dvec.z <= RESCALE_LO {
            let dn = Vec3 { x: dvec.x * 256, y: dvec.y * 256, z: dvec.z * 256 };
            proof {
                lemma_sqnorm_nonneg(dn);
                if dvec.x != 0 {
                    lemma_fp_sq_unit(dn.x as int);
                } else if dvec.y != 0 {
                    lemma_fp_sq_unit(dn.y as int);
                } else {
                    lemma_fp_sq_unit(dn.z as int);
                }
            }
            outward0 = dn.normalize();
        } else {
            proof {
                lemma_sqnorm_nonneg(dvec);
                if dvec.x < -RESCALE_LO || dvec.x > RESCALE_LO {
                    lemma_fp_sq_unit(dvec.x as int);
                } else if dvec.y < -RESCALE_LO || dvec.y > RESCALE_LO {
                    lemma_fp_sq_unit(dvec.y as int);
                } else {
                    lemma_fp_sq_unit(dvec.z as int);
                }
            }
            outward0 = dvec.normalize();
        }
        let outward = if self.radius < 0 {
            outward0.neg()
        } else {
            outward0
        };
        proof {
            lemma_dot_fits(ray.direction, outward, 0x8000_0000, 131072);
        }
        let mut rec = HitRecord {
            p,
            t: root,
            normal: Vec3 { x: 0, y: 0, z: 0 },
            front_face: false,
            material: self.material,
        };
        rec.set_face_normal(ray, &outward);
        Some(rec)
    }
}

} // verus!
