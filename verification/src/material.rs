//! The material model: how a surface scatters an incoming ray.
//!
//! The three concrete materials form a closed set, so they are held in a
//! sum type dispatched by pattern matching; primitives store their material
//! by value and hit records carry it along.

use vstd::prelude::*;
use rand::rngs::StdRng;
use crate::fp::{abs_int, fp_div, fp_div_spec, fp_mul, fp_mul_spec, fp_sqrt, lemma_fp_mul_fits, FP_ONE};
use crate::hit::{HitRecord, DIR_BOUND};
use crate::ray::Ray;
use crate::utils::{
    lemma_reflect_fits_unit, near_zero, near_zero_spec, random_scalar, random_unit_vector,
    reflect, reflect_spec, reflectance, reflectance_spec, refract, refract_spec,
};
use crate::vec3::{dot_spec, lemma_dot_fits, Vec3};

verus! {

/// A diffuse surface with a base color.
#[derive(Clone, Copy, PartialEq, Eq, Structural, Debug)]
pub struct Lambertian {
    pub albedo: Vec3,
}

/// A specular surface with a base color and a fuzz radius.
#[derive(Clone, Copy, PartialEq, Eq, Structural, Debug)]
pub struct Metal {
    pub albedo: Vec3,
    pub fuzz: i64,
}

/// A clear refractive surface with a refraction index.
#[derive(Clone, Copy, PartialEq, Eq, Structural, Debug)]
pub struct Dielectic {
    pub refraction_idx: i64,
}

/// The closed set of materials.
#[derive(Clone, Copy, PartialEq, Eq, Structural, Debug)]
pub enum Material {
    Lambertian(Lambertian),
    Metal(Metal),
    Dielectic(Dielectic),
}

/// A color channel value within `[0, 1]`.
pub open spec fn color_in_range(c: Vec3) -> bool {
    &&& 0 <= c.x <= FP_ONE
    &&& 0 <= c.y <= FP_ONE
    &&& 0 <= c.z <= FP_ONE
}

impl Lambertian {
    pub open spec fn wf(self) -> bool {
        color_in_range(self.albedo)
    }

    pub fn new(albedo: Vec3) -> (r: Lambertian)
        requires
            color_in_range(albedo),
        ensures
            r.albedo == albedo,
            r.wf(),
    {
        Lambertian { albedo }
    }
}

impl Metal {
    pub open spec fn wf(self) -> bool {
        &&& color_in_range(self.albedo)
        &&& 0 <= self.fuzz <= FP_ONE
    }

    pub fn new(albedo: Vec3, fuzz: i64) -> (r: Metal)
        requires
            color_in_range(albedo),
            0 <= fuzz <= FP_ONE,
        ensures
            r.albedo == albedo,
            r.fuzz == fuzz,
            r.wf(),
    {
        Metal { albedo, fuzz }
    }
}

impl Dielectic {
    /// The representable band of refraction indices, `[1/16, 16]`.
    pub open spec fn wf(self) -> bool {
        4096 <= self.refraction_idx <= 16 * FP_ONE
    }

    pub fn new(ref_idx: i64) -> (r: Dielectic)
        requires
            4096 <= ref_idx <= 16 * FP_ONE,
        ensures
            r.refraction_idx == ref_idx,
            r.wf(),
    {
        Dielectic { refraction_idx: ref_idx }
    }
}

impl Material {
    pub open spec fn wf(self) -> bool {
        match self {
            Material::Lambertian(m) => m.wf(),
            Material::Metal(m) => m.wf(),
            Material::Dielectic(m) => m.wf(),
        }
    }

    /// Scatter an incoming ray at a hit point: an outgoing ray plus an
    /// attenuation color, or nothing when the ray is absorbed.  A
    /// Lambertian or clear surface always scatters; what holds of every
    /// random outcome is stated here, the exact per-variant outcome in
    /// each variant's `scatter_with`.
    pub fn scatter(&self, ray: &Ray, hit_record: &HitRecord, rng: &mut StdRng) -> (r: Option<
        (Ray, Vec3),
    >)
        requires
            self.wf(),
            hit_record.normal.bounded(2 * FP_ONE),
            ray.direction.bounded(DIR_BOUND as int),
            crate::vec3::sqnorm_spec(ray.direction) >= 1,
        ensures
            r matches Some(pair) ==> {
                &&& pair.0.origin == hit_record.p
                &&& pair.0.direction.bounded(2048 * FP_ONE)
                &&& color_in_range(pair.1)
                &&& pair.1 == attenuation_cap(*self)
            },
            self matches Material::Lambertian(m) ==> r is Some && (r matches Some(pair)
                ==> pair.1 == m.albedo),
            self matches Material::Metal(m) ==> (r matches Some(pair) ==> pair.1 == m.albedo
                && dot_spec(pair.0.direction, hit_record.normal) > 0),
            self matches Material::Dielectic(m) ==> r is Some && (r matches Some(pair) ==> pair.1
                == (Vec3 { x: FP_ONE, y: FP_ONE, z: FP_ONE })),
    {
        match self {
            Material::Lambertian(m) => m.scatter(ray, hit_record, rng),
            Material::Metal(m) => m.scatter(ray, hit_record, rng),
            Material::Dielectic(m) => m.scatter(ray, hit_record, rng),
        }
    }
}

/// The attenuation any scatter from this material returns: the albedo
/// for diffuse and specular surfaces, opaque white for clear ones.
pub open spec fn attenuation_cap(m: Material) -> Vec3 {
    match m {
        Material::Lambertian(l) => l.albedo,
        Material::Metal(mm) => mm.albedo,
        Material::Dielectic(_) => Vec3 { x: FP_ONE, y: FP_ONE, z: FP_ONE },
    }
}

/// The diffuse scatter direction: the surface normal plus a unit sample,
/// with the normal itself as the degenerate-direction fallback.
pub open spec fn lambertian_dir_spec(normal: Vec3, sample: Vec3) -> Vec3 {
    let d = Vec3 {
        x: (normal.x + sample.x) as i64,
        y: (normal.y + sample.y) as i64,
        z: (normal.z + sample.z) as i64,
    };
    if near_zero_spec(d) {
        normal
    } else {
        d
    }
}

impl Lambertian {
    /// The deterministic core of diffuse scattering, taking the random
    /// unit sample as an argument: always scatters, from the hit point,
    /// with the albedo as attenuation.
    pub fn scatter_with(&self, hit_record: &HitRecord, unit_sample: Vec3) -> (r: Option<
        (Ray, Vec3),
    >)
        requires
            hit_record.normal.bounded(2 * FP_ONE),
            unit_sample.bounded(2 * FP_ONE),
        ensures
            r is Some,
            r matches Some(pair) ==> {
                &&& pair.0.origin == hit_record.p
                &&& pair.0.direction == lambertian_dir_spec(hit_record.normal, unit_sample)
                &&& pair.0.direction.bounded(4 * FP_ONE)
                &&& pair.1 == self.albedo
            },
    {
        let mut scatter_direction = hit_record.normal.add(unit_sample);
        if near_zero(&scatter_direction) {
            scatter_direction = hit_record.normal;
        }
        let scattered = Ray::new(hit_record.p, scatter_direction);
        let attenuation = self.albedo;
        Some((scattered, attenuation))
    }

    /// Diffuse scattering: always returns an outgoing ray and the albedo.
    pub fn scatter(&self, _ray: &Ray, hit_record: &HitRecord, rng: &mut StdRng) -> (r: Option<
        (Ray, Vec3),
    >)
        requires
            hit_record.normal.bounded(2 * FP_ONE),
        ensures
            r is Some,
            r matches Some(pair) ==> {
                &&& pair.0.origin == hit_record.p
                &&& pair.0.direction.bounded(4 * FP_ONE)
                &&& pair.1 == self.albedo
            },
    {
        let unit_sample = random_unit_vector(rng);
        self.scatter_with(hit_record, unit_sample)
    }
}

/// The specular scatter direction: the reflection of the normalized
/// incoming direction, perturbed by `fuzz` times a unit sample.
pub open spec fn metal_dir_spec(m: Metal, ray: Ray, normal: Vec3, sample: Vec3) -> Vec3 {
    let unit = crate::vec3::unit_spec(ray.direction);
    let refl = reflect_spec(unit, normal);
    Vec3 {
        x: (refl.0 + fp_mul_spec(sample.x as int, m.fuzz as int)) as i64,
        y: (refl.1 + fp_mul_spec(sample.y as int, m.fuzz as int)) as i64,
        z: (refl.2 + fp_mul_spec(sample.z as int, m.fuzz as int)) as i64,
    }
}

impl Metal {
    /// The deterministic core of specular scattering, taking the random
    /// unit sample as an argument.  The ray is absorbed exactly when the
    /// fuzzed reflection does not point away from the surface.
    pub fn scatter_with(&self, ray_in: &Ray, hit_record: &HitRecord, unit_sample: Vec3) -> (r:
        Option<(Ray, Vec3)>)
        requires
            self.wf(),
            hit_record.normal.bounded(2 * FP_ONE),
            unit_sample.bounded(2 * FP_ONE),
            ray_in.direction.bounded(DIR_BOUND as int),
            crate::vec3::sqnorm_spec(ray_in.direction) >= 1,
        ensures
            r is Some <==> dot_spec(
                metal_dir_spec(*self, *ray_in, hit_record.normal, unit_sample),
                hit_record.normal,
            ) > 0,
            r matches Some(pair) ==> {
                &&& pair.0.origin == hit_record.p
                &&& pair.0.direction == metal_dir_spec(
                    *self,
                    *ray_in,
                    hit_record.normal,
                    unit_sample,
                )
                &&& pair.0.direction.bounded(52 * FP_ONE)
                &&& pair.1 == self.albedo
            },
    {
        let unit_direction = ray_in.direction.normalize();
        proof {
            lemma_reflect_fits_unit(unit_direction, hit_record.normal);
            lemma_fp_mul_fits(unit_sample.x as int, self.fuzz as int, 131072, 65536);
            lemma_fp_mul_fits(unit_sample.y as int, self.fuzz as int, 131072, 65536);
            lemma_fp_mul_fits(unit_sample.z as int, self.fuzz as int, 131072, 65536);
        }
        let reflected = reflect(&unit_direction, &hit_record.normal);
        let fuzzed = unit_sample.scale(self.fuzz);
        let dir = reflected.add(fuzzed);
        proof {
            lemma_dot_fits(dir, hit_record.normal, 3407872, 131072);
        }
        let d = dir.dot(hit_record.normal);
        if d > 0 {
            let scattered = Ray::new(hit_record.p, dir);
            let attenuation = self.albedo;
            Some((scattered, attenuation))
        } else {
            None
        }
    }

    /// Specular scattering: reflect, fuzz, and absorb rays that would
    /// leave into the surface.  Without fuzz the random sample plays no
    /// part, and the outcome is decided by the bare reflection alone.
    pub fn scatter(&self, ray_in: &Ray, hit_record: &HitRecord, rng: &mut StdRng) -> (r: Option<
        (Ray, Vec3),
    >)
        requires
            self.wf(),
            hit_record.normal.bounded(2 * FP_ONE),
            ray_in.direction.bounded(DIR_BOUND as int),
            crate::vec3::sqnorm_spec(ray_in.direction) >= 1,
        ensures
            r matches Some(pair) ==> {
                &&& pair.0.origin == hit_record.p
                &&& pair.0.direction.bounded(52 * FP_ONE)
                &&& pair.1 == self.albedo
                &&& dot_spec(pair.0.direction, hit_record.normal) > 0
            },
            self.fuzz == 0 ==> {
                let refl = reflect_spec(
                    crate::vec3::unit_spec(ray_in.direction),
                    hit_record.normal,
                );
                let dir = Vec3 { x: refl.0 as i64, y: refl.1 as i64, z: refl.2 as i64 };
                r is Some <==> dot_spec(dir, hit_record.normal) > 0
            },
    {
        let unit_sample = random_unit_vector(rng);
        let r = self.scatter_with(ray_in, hit_record, unit_sample);
        proof {
            if self.fuzz == 0 {
                assert(unit_sample.x as int * 0 == 0);
                assert(unit_sample.y as int * 0 == 0);
                assert(unit_sample.z as int * 0 == 0);
                assert(fp_mul_spec(unit_sample.x as int, 0) == 0);
                assert(fp_mul_spec(unit_sample.y as int, 0) == 0);
                assert(fp_mul_spec(unit_sample.z as int, 0) == 0);
                let refl = reflect_spec(
                    crate::vec3::unit_spec(ray_in.direction),
                    hit_record.normal,
                );
                assert(metal_dir_spec(*self, *ray_in, hit_record.normal, unit_sample) == (Vec3 {
                    x: refl.0 as i64,
                    y: refl.1 as i64,
                    z: refl.2 as i64,
                }));
            }
        }
        r
    }
}

/// The refractive scatter direction, given the uniform draw that decides
/// between reflection and refraction: total internal reflection or a
/// winning Fresnel draw reflects, anything else refracts by Snell's law.
pub open spec fn dielectric_dir_spec(
    m: Dielectic,
    ray: Ray,
    normal: Vec3,
    front_face: bool,
    draw: int,
) -> Vec3 {
    let ratio = if front_face {
        fp_div_spec(65536, m.refraction_idx as int)
    } else {
        m.refraction_idx as int
    };
    let unit = crate::vec3::unit_spec(ray.direction);
    let mdot = -dot_spec(unit, normal);
    let ct = if mdot > 65536 {
        65536int
    } else {
        mdot
    };
    let c2 = fp_mul_spec(ct, ct);
    let inner = 65536 - c2;
    let st = if inner < 0 {
        0int
    } else {
        crate::fp::sqrt_spec((inner * 65536) as nat) as int
    };
    let cr = if ct < 0 {
        0int
    } else {
        ct
    };
    if fp_mul_spec(ratio, st) > 65536 || reflectance_spec(cr, ratio) > draw {
        let refl = reflect_spec(unit, normal);
        Vec3 { x: refl.0 as i64, y: refl.1 as i64, z: refl.2 as i64 }
    } else {
        let refr = refract_spec(unit, normal, ratio);
        Vec3 { x: refr.0 as i64, y: refr.1 as i64, z: refr.2 as i64 }
    }
}

impl Dielectic {
    /// The deterministic core of refractive scattering, taking the uniform
    /// Fresnel draw as an argument: always scatters, with opaque white as
    /// attenuation.
    pub fn scatter_with(&self, ray_in: &Ray, hit_record: &HitRecord, draw: i64) -> (r: Option<
        (Ray, Vec3),
    >)
        requires
            self.wf(),
            hit_record.normal.bounded(2 * FP_ONE),
            ray_in.direction.bounded(DIR_BOUND as int),
            crate::vec3::sqnorm_spec(ray_in.direction) >= 1,
            0 <= draw <= FP_ONE,
        ensures
            r is Some,
            r matches Some(pair) ==> {
                &&& pair.0.origin == hit_record.p
                &&& pair.0.direction == dielectric_dir_spec(
                    *self,
                    *ray_in,
                    hit_record.normal,
                    hit_record.front_face,
                    draw as int,
                )
                &&& pair.0.direction.bounded(2048 * FP_ONE)
                &&& pair.1 == (Vec3 { x: FP_ONE, y: FP_ONE, z: FP_ONE })
            },
    {
        let attenuation = Vec3::new(FP_ONE, FP_ONE, FP_ONE);
        proof {
            crate::fp::lemma_fp_div_fits(65536, self.refraction_idx as int, 65536, 4096);
            assert(65536int * 65536 == 0x1_0000_0000) by (nonlinear_arith);
            crate::fp::lemma_tdiv_lower(65536int * 65536, self.refraction_idx as int, 4096);
            assert(abs_int(fp_div_spec(65536, self.refraction_idx as int)) <= 1048576) by (nonlinear_arith)
                requires
                    abs_int(fp_div_spec(65536, self.refraction_idx as int)) * 4096 <= 65536int
                        * 65536,
            ;
        }
        let refraction_ratio = if hit_record.front_face {
            fp_div(FP_ONE, self.refraction_idx)
        } else {
            self.refraction_idx
        };
        let unit_direction = ray_in.direction.normalize();
        proof {
            lemma_dot_fits(unit_direction, hit_record.normal, 131072, 131072);
        }
        let mdot = -(unit_direction.dot(hit_record.normal));
        let cos_theta = if mdot > FP_ONE {
            FP_ONE
        } else {
            mdot
        };
        proof {
            lemma_fp_mul_fits(cos_theta as int, cos_theta as int, 786432, 786432);
            crate::fp::lemma_fp_sq_nonneg(cos_theta as int);
        }
        let c2 = fp_mul(cos_theta, cos_theta);
        let inner = FP_ONE - c2;
        let sin_theta = if inner < 0 {
            0
        } else {
            fp_sqrt(inner)
        };
        proof {
            assert(sin_theta <= 65536) by (nonlinear_arith)
                requires
                    sin_theta >= 0,
                    sin_theta * sin_theta <= 0x1_0000_0000,
            ;
            lemma_fp_mul_fits(refraction_ratio as int, sin_theta as int, 1048576, 65536);
        }
        let cannot_refract = fp_mul(refraction_ratio, sin_theta) > FP_ONE;
        let cr = if cos_theta < 0 {
            0
        } else {
            cos_theta
        };
        let direction = if cannot_refract || reflectance(cr, refraction_ratio) > draw {
            proof {
                lemma_reflect_fits_unit(unit_direction, hit_record.normal);
            }
            reflect(&unit_direction, &hit_record.normal)
        } else {
            refract(&unit_direction, &hit_record.normal, refraction_ratio)
        };
        let scattered = Ray::new(hit_record.p, direction);
        Some((scattered, attenuation))
    }

    /// Refractive scattering: always returns an outgoing ray and opaque
    /// white.
    pub fn scatter(&self, ray_in: &Ray, hit_record: &HitRecord, rng: &mut StdRng) -> (r: Option<
        (Ray, Vec3),
    >)
        requires
            self.wf(),
            hit_record.normal.bounded(2 * FP_ONE),
            ray_in.direction.bounded(DIR_BOUND as int),
            crate::vec3::sqnorm_spec(ray_in.direction) >= 1,
        ensures
            r is Some,
            r matches Some(pair) ==> {
                &&& pair.0.origin == hit_record.p
                &&& pair.0.direction.bounded(2048 * FP_ONE)
                &&& pair.1 == (Vec3 { x: FP_ONE, y: FP_ONE, z: FP_ONE })
            },
    {
        let draw = random_scalar(rng, 0, FP_ONE);
        self.scatter_with(ray_in, hit_record, draw)
    }
}

} // verus!
