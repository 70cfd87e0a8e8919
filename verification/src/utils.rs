//! Sampling utilities and vector helpers: uniform scalars and points,
//! reflection and refraction of directions, and Schlick's reflectance
//! approximation.
//!
//! Every sampling function takes an explicit random-source handle; there is
//! no hidden global random state.  Contracts state what holds of every
//! outcome of the random draws.

use vstd::prelude::*;
use rand::rngs::StdRng;
use crate::fp::{
    abs_int, fits, fp_div, fp_div_spec, fp_mul, fp_mul_spec, fp_sincos, fp_sqrt,
    lemma_fp_div_fits, lemma_fp_mul_fits, lemma_fp_mul_le_left, lemma_fp_mul_one,
    lemma_fp_sq_nonneg, sqrt_spec, FP_ONE, PI_FP, TWO_PI_FP,
};
use crate::rng::next_u64;
use crate::vec3::{dot_fits, dot_spec, lemma_dot_fits, lemma_sqnorm_nonneg, sqnorm_spec, Vec3};

verus! {

/// Threshold below which a component counts as zero.  The customary 1e-8
/// cutoff lies below fixed-point resolution, so one ulp stands in for it:
/// only the exact zero vector is "near zero".
pub const NEAR_ZERO_EPS: i64 = 1;

/// Exact value of `clamp`.
pub open spec fn clamp_spec(x: int, min: int, max: int) -> int {
    if x < min {
        min
    } else if x > max {
        max
    } else {
        x
    }
}

/// Clamp a scalar into `[min, max]`.
pub fn clamp(x: i64, min: i64, max: i64) -> (r: i64)
    requires
        min <= max,
    ensures
        r == clamp_spec(x as int, min as int, max as int),
{
    if x < min {
        min
    } else if x > max {
        max
    } else {
        x
    }
}

/// Uniform scalar in `[min, max)` (and `min` itself when the interval is
/// empty).  Only the range is promised; the draw is random.
pub fn random_scalar(rng: &mut StdRng, min: i64, max: i64) -> (r: i64)
    requires
        min <= max,
        fits(max - min),
    ensures
        min <= r <= max,
        min < max ==> r < max,
{
    if min == max {
        min
    } else {
        let span: u64 = (max - min) as u64;
        let u: u64 = next_u64(rng);
        let off: u64 = u % span;
        min + (off as i64)
    }
}

/// Uniform vector in the cube `[0, 1)^3`.
pub fn random_vec3(rng: &mut StdRng) -> (r: Vec3)
    ensures
        0 <= r.x < FP_ONE,
        0 <= r.y < FP_ONE,
        0 <= r.z < FP_ONE,
        r.bounded(FP_ONE as int),
{
    let x = random_scalar(rng, 0, FP_ONE);
    let y = random_scalar(rng, 0, FP_ONE);
    let z = random_scalar(rng, 0, FP_ONE);
    Vec3::new(x, y, z)
}

/// Rejection-sample a vector inside the unit ball: draw from the cube
/// `[-1, 1)^3` and retry while the squared norm reaches one.  The attempt
/// budget bounds the loop; the zero vector is the (vanishingly unlikely)
/// fallback.
pub fn random_vec3_in_unit_spehere(rng: &mut StdRng) -> (r: Vec3)
    ensures
        0 <= sqnorm_spec(r) < FP_ONE,
        r.bounded(FP_ONE as int),
{
    let mut k: usize = 0;
    while k < 32
        invariant
            k <= 32,
        decreases 32 - k,
    {
        let x = random_scalar(rng, -FP_ONE, FP_ONE);
        let y = random_scalar(rng, -FP_ONE, FP_ONE);
        let z = random_scalar(rng, -FP_ONE, FP_ONE);
        let v = Vec3::new(x, y, z);
        proof {
            lemma_dot_fits(v, v, 65536, 65536);
            lemma_sqnorm_nonneg(v);
        }
        if v.sqnorm() < FP_ONE {
            return v;
        }
        k = k + 1;
    }
    let zero = Vec3::new(0, 0, 0);
    proof {
        lemma_sqnorm_nonneg(zero);
        lemma_fp_sq_nonneg(0);
        assert(fp_mul_spec(0, 0) * 65536 <= 0 * 0);
        assert(0 * 0 == 0) by (nonlinear_arith);
    }
    zero
}

/// The spherical-coordinate map the unit-vector sampler evaluates: for an
/// azimuth `a` and height `z`, the radius `sqrt(1 - z^2)` completes the
/// unit length, and the components are `(r cos a, r sin a, z)` over the
/// crate's trig polynomials.
pub open spec fn spherical_dir_spec(a: int, z: int) -> Vec3 {
    let zz = fp_mul_spec(z, z);
    let rr = sqrt_spec(((65536 - zz) * 65536) as nat) as int;
    let sc = crate::fp::sincos_spec(a);
    Vec3 { x: fp_mul_spec(rr, sc.1) as i64, y: fp_mul_spec(rr, sc.0) as i64, z: z as i64 }
}

/// The unit vector the sampler returns for draws `(a, z)`: the spherical
/// map renormalized, which enforces the unit-length invariant; the north
/// pole stands in should quantization ever leave the map shorter than
/// half a unit (no such pair of draws has been observed).
pub open spec fn unit_dir_of_draws_spec(a: int, z: int) -> Vec3 {
    let m = spherical_dir_spec(a, z);
    if sqnorm_spec(m) >= 16382 {
        crate::vec3::unit_spec(m)
    } else {
        Vec3 { x: 0, y: 0, z: FP_ONE }
    }
}

/// Uniform direction via spherical coordinates: azimuth uniform over one
/// turn, height uniform in `[-1, 1)`, radius completing the unit length,
/// then renormalized.  The result is exactly the renormalized map of the
/// two draws, and its squared norm is always within 64 ulps of one.
pub fn random_unit_vector(rng: &mut StdRng) -> (r: Vec3)
    ensures
        r.bounded(2 * FP_ONE),
        FP_ONE - 64 <= sqnorm_spec(r) <= FP_ONE + 64,
        exists|a: int, z: int|
            {
                &&& 0 <= a < TWO_PI_FP
                &&& -FP_ONE <= z < FP_ONE
                &&& r == unit_dir_of_draws_spec(a, z)
            },
{
    let a = random_scalar(rng, 0, TWO_PI_FP);
    let z = random_scalar(rng, -FP_ONE, FP_ONE);
    proof {
        lemma_fp_mul_fits(z as int, z as int, 65536, 65536);
        lemma_fp_sq_nonneg(z as int);
    }
    let zz = fp_mul(z, z);
    let r = fp_sqrt(FP_ONE - zz);
    proof {
        assert(r <= 65536) by (nonlinear_arith)
            requires
                r * r <= 0x1_0000_0000,
                r >= 0,
        ;
    }
    let sc = fp_sincos(a);
    proof {
        lemma_fp_mul_fits(r as int, sc.1 as int, 65536, 131072);
        lemma_fp_mul_fits(r as int, sc.0 as int, 65536, 131072);
    }
    let map = Vec3::new(fp_mul(r, sc.1), fp_mul(r, sc.0), z);
    proof {
        lemma_dot_fits(map, map, 131072, 131072);
        lemma_sqnorm_nonneg(map);
    }
    let q = map.sqnorm();
    let out: Vec3;
    if q >= 16382 {
        out = map.normalize();
    } else {
        out = Vec3::new(0, 0, FP_ONE);
        proof {
            lemma_fp_mul_one(65536);
            assert(0int * 0 == 0) by (nonlinear_arith);
            assert(sqnorm_spec(out) == FP_ONE);
        }
    }
    proof {
        assert(map == spherical_dir_spec(a as int, z as int));
        assert(out == unit_dir_of_draws_spec(a as int, z as int));
        assert(exists|aa: int, zz: int|
            {
                &&& 0 <= aa < TWO_PI_FP
                &&& -FP_ONE <= zz < FP_ONE
                &&& out == unit_dir_of_draws_spec(aa, zz)
            }) by {
            assert(0 <= a < TWO_PI_FP && -FP_ONE <= z < FP_ONE && out == unit_dir_of_draws_spec(
                a as int,
                z as int,
            ));
        }
    }
    out
}

/// Exact componentwise value of `reflect`.
pub open spec fn reflect_spec(v: Vec3, n: Vec3) -> (int, int, int) {
    let k = 2 * dot_spec(v, n);
    (
        v.x - fp_mul_spec(n.x as int, k),
        v.y - fp_mul_spec(n.y as int, k),
        v.z - fp_mul_spec(n.z as int, k),
    )
}

/// The intermediate values of `reflect` fit in a scalar.
pub open spec fn reflect_fits(v: Vec3, n: Vec3) -> bool {
    &&& dot_fits(v, n)
    &&& fits(2 * dot_spec(v, n))
    &&& fits(fp_mul_spec(n.x as int, 2 * dot_spec(v, n)))
    &&& fits(fp_mul_spec(n.y as int, 2 * dot_spec(v, n)))
    &&& fits(fp_mul_spec(n.z as int, 2 * dot_spec(v, n)))
    &&& fits(reflect_spec(v, n).0)
    &&& fits(reflect_spec(v, n).1)
    &&& fits(reflect_spec(v, n).2)
}

/// Mirror `v` about the plane with normal `n`: `v - 2 (v . n) n`.
pub fn reflect(v: &Vec3, n: &Vec3) -> (r: Vec3)
    requires
        reflect_fits(*v, *n),
    ensures
        r.x == reflect_spec(*v, *n).0,
        r.y == reflect_spec(*v, *n).1,
        r.z == reflect_spec(*v, *n).2,
{
    let d = v.dot(*n);
    let k = 2 * d;
    let s = n.scale(k);
    v.sub(s)
}

/// For unit-scale arguments `reflect` fits and stays small.
pub proof fn lemma_reflect_fits_unit(v: Vec3, n: Vec3)
    requires
        v.bounded(2 * FP_ONE),
        n.bounded(2 * FP_ONE),
    ensures
        reflect_fits(v, n),
        abs_int(reflect_spec(v, n).0) <= 50 * FP_ONE,
        abs_int(reflect_spec(v, n).1) <= 50 * FP_ONE,
        abs_int(reflect_spec(v, n).2) <= 50 * FP_ONE,
{
    lemma_dot_fits(v, n, 131072, 131072);
    let k = 2 * dot_spec(v, n);
    lemma_fp_mul_fits(n.x as int, k, 131072, 1572864);
    lemma_fp_mul_fits(n.y as int, k, 131072, 1572864);
    lemma_fp_mul_fits(n.z as int, k, 131072, 1572864);
}

/// Exact value of `near_zero`: every component below the threshold in
/// magnitude.
pub open spec fn near_zero_spec(v: Vec3) -> bool {
    &&& abs_int(v.x as int) < NEAR_ZERO_EPS as int
    &&& abs_int(v.y as int) < NEAR_ZERO_EPS as int
    &&& abs_int(v.z as int) < NEAR_ZERO_EPS as int
}

/// Whether `v` is (numerically) the zero vector.
pub fn near_zero(v: &Vec3) -> (r: bool)
    ensures
        r == near_zero_spec(*v),
{
    v.x > -NEAR_ZERO_EPS && v.x < NEAR_ZERO_EPS && v.y > -NEAR_ZERO_EPS && v.y < NEAR_ZERO_EPS
        && v.z > -NEAR_ZERO_EPS && v.z < NEAR_ZERO_EPS
}

/// Exact componentwise value of `refract`: Snell's law in fixed point.
/// `ct` is the incidence cosine capped at one; the parallel part is
/// `ratio * (uv + ct * n)`; the perpendicular part completes the length.
pub open spec fn refract_spec(uv: Vec3, n: Vec3, ratio: int) -> (int, int, int) {
    let mdot = -dot_spec(uv, n);
    let ct = if mdot > 65536 {
        65536int
    } else {
        mdot
    };
    let px = fp_mul_spec(uv.x + fp_mul_spec(n.x as int, ct), ratio);
    let py = fp_mul_spec(uv.y + fp_mul_spec(n.y as int, ct), ratio);
    let pz = fp_mul_spec(uv.z + fp_mul_spec(n.z as int, ct), ratio);
    let s = fp_mul_spec(px, px) + fp_mul_spec(py, py) + fp_mul_spec(pz, pz);
    let rt = sqrt_spec((abs_int(65536 - s) * 65536) as nat) as int;
    (
        px + fp_mul_spec(n.x as int, -rt),
        py + fp_mul_spec(n.y as int, -rt),
        pz + fp_mul_spec(n.z as int, -rt),
    )
}

/// Refract the unit direction `uv` at a surface with normal `n` and
/// refraction ratio `etai_over_etat`.
pub fn refract(uv: &Vec3, n: &Vec3, etai_over_etat: i64) -> (r: Vec3)
    requires
        uv.bounded(2 * FP_ONE),
        n.bounded(2 * FP_ONE),
        0 <= etai_over_etat <= 16 * FP_ONE,
    ensures
        r.x == refract_spec(*uv, *n, etai_over_etat as int).0,
        r.y == refract_spec(*uv, *n, etai_over_etat as int).1,
        r.z == refract_spec(*uv, *n, etai_over_etat as int).2,
        r.bounded(2048 * FP_ONE),
{
    proof {
        lemma_dot_fits(*uv, *n, 131072, 131072);
    }
    let d = uv.dot(*n);
    let mdot = -d;
    let ct = if mdot > FP_ONE {
        FP_ONE
    } else {
        mdot
    };
    proof {
        lemma_fp_mul_fits(n.x as int, ct as int, 131072, 786432);
        lemma_fp_mul_fits(n.y as int, ct as int, 131072, 786432);
        lemma_fp_mul_fits(n.z as int, ct as int, 131072, 786432);
    }
    let i = uv.add(n.scale(ct));
    proof {
        lemma_fp_mul_fits(i.x as int, etai_over_etat as int, 1703936, 1048576);
        lemma_fp_mul_fits(i.y as int, etai_over_etat as int, 1703936, 1048576);
        lemma_fp_mul_fits(i.z as int, etai_over_etat as int, 1703936, 1048576);
    }
    let par = i.scale(etai_over_etat);
    proof {
        lemma_dot_fits(par, par, 27262976, 27262976);
    }
    let s = par.sqnorm();
    let inner = FP_ONE - s;
    let a = if inner < 0 {
        -inner
    } else {
        inner
    };
    let rt = fp_sqrt(a);
    proof {
        assert(rt <= 47300000) by (nonlinear_arith)
            requires
                rt >= 0,
                rt * rt <= 34100000000 * 65536,
        ;
        lemma_fp_mul_fits(n.x as int, -rt as int, 131072, 47300000);
        lemma_fp_mul_fits(n.y as int, -rt as int, 131072, 47300000);
        lemma_fp_mul_fits(n.z as int, -rt as int, 131072, 47300000);
    }
    let perp = n.scale(-rt);
    par.add(perp)
}

/// The Schlick base reflectance `r0 = ((1 - ratio) / (1 + ratio))^2`.
pub open spec fn schlick_r0_spec(ridx: int) -> int {
    let q = fp_div_spec(65536 - ridx, 65536 + ridx);
    fp_mul_spec(q, q)
}

/// Exact value of `reflectance`: `r0 + (1 - r0) * (1 - cosine)^5`.
pub open spec fn reflectance_spec(cosine: int, ridx: int) -> int {
    let r0 = schlick_r0_spec(ridx);
    let t = 65536 - cosine;
    let t2 = fp_mul_spec(t, t);
    let t4 = fp_mul_spec(t2, t2);
    let t5 = fp_mul_spec(t4, t);
    r0 + fp_mul_spec(65536 - r0, t5)
}

/// Schlick's approximation of the Fresnel reflectance.  At normal
/// incidence (`cosine` one) it returns `r0` exactly; at grazing incidence
/// (`cosine` zero) it returns one exactly.
pub fn reflectance(cosine: i64, ref_idx: i64) -> (r: i64)
    requires
        0 <= cosine <= FP_ONE,
        0 < ref_idx <= 16 * FP_ONE,
    ensures
        r == reflectance_spec(cosine as int, ref_idx as int),
        0 <= r <= FP_ONE,
        cosine == FP_ONE ==> r == schlick_r0_spec(ref_idx as int),
        cosine == 0 ==> r == FP_ONE,
{
    let num = FP_ONE - ref_idx;
    let den = FP_ONE + ref_idx;
    proof {
        lemma_fp_div_fits(num as int, den as int, den as int, den as int);
        assert(abs_int(fp_div_spec(num as int, den as int)) <= 65536) by (nonlinear_arith)
            requires
                abs_int(fp_div_spec(num as int, den as int)) * (den as int) <= (den as int) * 65536,
                den > 0,
        ;
    }
    let q = fp_div(num, den);
    proof {
        lemma_fp_mul_fits(q as int, q as int, 65536, 65536);
        lemma_fp_sq_nonneg(q as int);
    }
    let r0 = fp_mul(q, q);
    let t = FP_ONE - cosine;
    proof {
        lemma_fp_mul_fits(t as int, t as int, 65536, 65536);
        lemma_fp_sq_nonneg(t as int);
        lemma_fp_mul_le_left(t as int, t as int);
    }
    let t2 = fp_mul(t, t);
    proof {
        lemma_fp_mul_le_left(t2 as int, t2 as int);
        lemma_fp_mul_fits(t2 as int, t2 as int, 65536, 65536);
        lemma_fp_sq_nonneg(t2 as int);
    }
    let t4 = fp_mul(t2, t2);
    proof {
        lemma_fp_mul_le_left(t4 as int, t as int);
        lemma_fp_mul_fits(t4 as int, t as int, 65536, 65536);
    }
    let t5 = fp_mul(t4, t);
    proof {
        lemma_fp_mul_le_left((FP_ONE - r0) as int, t5 as int);
        lemma_fp_mul_fits((FP_ONE - r0) as int, t5 as int, 65536, 65536);
        if cosine == FP_ONE {
            assert(fp_mul_spec(0, 0) == 0);
            assert((FP_ONE - r0) as int * 0 == 0);
            assert(fp_mul_spec((FP_ONE - r0) as int, 0) == 0);
        }
        if cosine == 0 {
            lemma_fp_mul_one(65536);
            lemma_fp_mul_one((FP_ONE - r0) as int);
        }
    }
    r0 + fp_mul(FP_ONE - r0, t5)
}

/// Exact value of `deg_to_rad`.
pub open spec fn deg_to_rad_spec(deg: int) -> int {
    fp_mul_spec(2 * fp_div_spec(deg, 23592960), PI_FP as int)
}

/// Degrees to radians: `deg / 360 * 2 * Pi`.
pub fn deg_to_rad(deg: i64) -> (r: i64)
    requires
        -23592960 <= deg <= 23592960,
    ensures
        r == deg_to_rad_spec(deg as int),
        -8 * FP_ONE <= r <= 8 * FP_ONE,
        deg >= 0 ==> r >= 0,
{
    proof {
        lemma_fp_div_fits(deg as int, 23592960, 23592960, 23592960);
        lemma_fp_div_nonneg(deg as int, 23592960);
    }
    let t = fp_div(deg, 360 * FP_ONE);
    proof {
        assert(abs_int(fp_div_spec(deg as int, 23592960)) <= 65536) by (nonlinear_arith)
            requires
                abs_int(fp_div_spec(deg as int, 23592960)) * 23592960 <= 23592960 * 65536,
        ;
        lemma_fp_mul_fits(2 * t as int, 205887, 131072, 205887);
        lemma_fp_mul_nonneg(2 * t as int, 205887);
    }
    let t2 = 2 * t;
    fp_mul(t2, PI_FP)
}

/// Exact value of `rad_to_deg`.
pub open spec fn rad_to_deg_spec(rad: int) -> int {
    fp_div_spec(fp_mul_spec(rad, 11796480), PI_FP as int)
}

/// Radians to degrees: `rad * 180 / Pi`.
pub fn rad_to_deg(rad: i64) -> (r: i64)
    requires
        -524288 <= rad <= 524288,
    ensures
        r == rad_to_deg_spec(rad as int),
{
    proof {
        lemma_fp_mul_fits(rad as int, 11796480, 524288, 11796480);
    }
    let t = fp_mul(rad, 180 * FP_ONE);
    proof {
        lemma_fp_div_fits(t as int, 205887, 94371840, 205887);
    }
    fp_div(t, PI_FP)
}

/// A fixed-point quotient of nonnegative values is nonnegative.
proof fn lemma_fp_div_nonneg(a: int, b: int)
    by (nonlinear_arith)
    requires
        b > 0,
    ensures
        a >= 0 ==> fp_div_spec(a, b) >= 0,
{
}

/// A fixed-point product of nonnegative values is nonnegative.
proof fn lemma_fp_mul_nonneg(a: int, b: int)
    by (nonlinear_arith)
    requires
        b >= 0,
    ensures
        a >= 0 ==> fp_mul_spec(a, b) >= 0,
{
}

/// Rejection-sample a point in the unit disk of the lens plane (`z` zero).
pub fn random_in_unit_disk(rng: &mut StdRng) -> (r: Vec3)
    ensures
        0 <= sqnorm_spec(r) < FP_ONE,
        r.bounded(FP_ONE as int),
        r.z == 0,
{
    let mut k: usize = 0;
    while k < 32
        invariant
            k <= 32,
        decreases 32 - k,
    {
        let x = random_scalar(rng, -FP_ONE, FP_ONE);
        let y = random_scalar(rng, -FP_ONE, FP_ONE);
        let p = Vec3::new(x, y, 0);
        proof {
            lemma_dot_fits(p, p, 65536, 65536);
            lemma_sqnorm_nonneg(p);
        }
        if p.sqnorm() < FP_ONE {
            return p;
        }
        k = k + 1;
    }
    let zero = Vec3::new(0, 0, 0);
    proof {
        lemma_sqnorm_nonneg(zero);
        assert(0 * 0 == 0) by (nonlinear_arith);
        assert(fp_mul_spec(0, 0) * 65536 <= 0 * 0) by {
            lemma_fp_sq_nonneg(0);
        }
    }
    zero
}

/// Free-function squared norm, matching `Vec3::sqnorm`.
pub fn sqnorm(v: Vec3) -> (r: i64)
    requires
        dot_fits(v, v),
    ensures
        r == sqnorm_spec(v),
        r >= 0,
{
    v.sqnorm()
}

} // verus!
