//! 3D vectors over fixed-point scalars.
//!
//! A `Vec3` serves interchangeably as a position, a direction and an RGB
//! color.  Every operation's contract states its exact componentwise result
//! over the fixed-point arithmetic of `crate::fp`.

use vstd::prelude::*;
use crate::fp::{
    abs_int, fits, fp_div, fp_div_spec, fp_mul, fp_mul_spec, fp_sqrt, lemma_fp_div_fits,
    lemma_fp_mul_fits, lemma_sqrt_spec_bracket, lemma_tdiv_lower, sqrt_spec, FP_ONE,
};

verus! {

/// A 3D vector (or RGB color) of fixed-point scalars.
#[derive(Clone, Copy, PartialEq, Eq, Structural, Debug)]
pub struct Vec3 {
    pub x: i64,
    pub y: i64,
    pub z: i64,
}

impl Vec3 {
    /// All three components have magnitude at most `b`.
    pub open spec fn bounded(self, b: int) -> bool {
        &&& -b <= self.x <= b
        &&& -b <= self.y <= b
        &&& -b <= self.z <= b
    }

    pub fn new(x: i64, y: i64, z: i64) -> (r: Vec3)
        ensures
            r == (Vec3 { x, y, z }),
    {
        Vec3 { x, y, z }
    }

    /// Componentwise sum.
    pub fn add(self, o: Vec3) -> (r: Vec3)
        requires
            fits(self.x + o.x),
            fits(self.y + o.y),
            fits(self.z + o.z),
        ensures
            r.x == self.x + o.x,
            r.y == self.y + o.y,
            r.z == self.z + o.z,
    {
        Vec3 { x: self.x + o.x, y: self.y + o.y, z: self.z + o.z }
    }

    /// Componentwise difference.
    pub fn sub(self, o: Vec3) -> (r: Vec3)
        requires
            fits(self.x - o.x),
            fits(self.y - o.y),
            fits(self.z - o.z),
        ensures
            r.x == self.x - o.x,
            r.y == self.y - o.y,
            r.z == self.z - o.z,
    {
        Vec3 { x: self.x - o.x, y: self.y - o.y, z: self.z - o.z }
    }

    /// Componentwise negation.
    pub fn neg(self) -> (r: Vec3)
        requires
            fits(-self.x),
            fits(-self.y),
            fits(-self.z),
        ensures
            r.x == -self.x,
            r.y == -self.y,
            r.z == -self.z,
    {
        Vec3 { x: -self.x, y: -self.y, z: -self.z }
    }

    /// Scale by a fixed-point scalar.
    pub fn scale(self, k: i64) -> (r: Vec3)
        requires
            fits(fp_mul_spec(self.x as int, k as int)),
            fits(fp_mul_spec(self.y as int, k as int)),
            fits(fp_mul_spec(self.z as int, k as int)),
        ensures
            r.x == fp_mul_spec(self.x as int, k as int),
            r.y == fp_mul_spec(self.y as int, k as int),
            r.z == fp_mul_spec(self.z as int, k as int),
    {
        Vec3 { x: fp_mul(self.x, k), y: fp_mul(self.y, k), z: fp_mul(self.z, k) }
    }

    /// Componentwise (Hadamard) product, used for color attenuation.
    pub fn mul_elem(self, o: Vec3) -> (r: Vec3)
        requires
            fits(fp_mul_spec(self.x as int, o.x as int)),
            fits(fp_mul_spec(self.y as int, o.y as int)),
            fits(fp_mul_spec(self.z as int, o.z as int)),
        ensures
            r.x == fp_mul_spec(self.x as int, o.x as int),
            r.y == fp_mul_spec(self.y as int, o.y as int),
            r.z == fp_mul_spec(self.z as int, o.z as int),
    {
        Vec3 { x: fp_mul(self.x, o.x), y: fp_mul(self.y, o.y), z: fp_mul(self.z, o.z) }
    }

    /// Dot product.
    pub fn dot(self, o: Vec3) -> (r: i64)
        requires
            dot_fits(self, o),
        ensures
            r == dot_spec(self, o),
    {
        fp_mul(self.x, o.x) + fp_mul(self.y, o.y) + fp_mul(self.z, o.z)
    }

    /// Cross product.
    pub fn cross(self, o: Vec3) -> (r: Vec3)
        requires
            cross_fits(self, o),
        ensures
            r.x == cross_spec(self, o).0,
            r.y == cross_spec(self, o).1,
            r.z == cross_spec(self, o).2,
    {
        Vec3 {
            x: fp_mul(self.y, o.z) - fp_mul(self.z, o.y),
            y: fp_mul(self.z, o.x) - fp_mul(self.x, o.z),
            z: fp_mul(self.x, o.y) - fp_mul(self.y, o.x),
        }
    }

    /// Squared norm.
    pub fn sqnorm(self) -> (r: i64)
        requires
            dot_fits(self, self),
        ensures
            r == sqnorm_spec(self),
            r >= 0,
    {
        proof {
            lemma_sqnorm_nonneg(self);
        }
        self.dot(self)
    }

    /// Scale to (approximately) unit length.  The argument must not be a
    /// zero vector; in fixed point this means its squared norm must not
    /// round down to zero (callers must not normalize such a vector).
    /// For arguments of at least half unit length the result's squared
    /// norm is within 64 ulps of one (the unit-vector invariant); below
    /// that, quantization can stretch the result, and only the
    /// componentwise bounds hold.
    pub fn normalize(self) -> (r: Vec3)
        requires
            self.bounded(0x40_0000_0000),
            sqnorm_spec(self) >= 1,
        ensures
            r == unit_spec(self),
            r.x == fp_div_spec(self.x as int, norm_spec(self)),
            r.y == fp_div_spec(self.y as int, norm_spec(self)),
            r.z == fp_div_spec(self.z as int, norm_spec(self)),
            r.bounded(2 * FP_ONE),
            abs_int(r.x as int) >= 32768 || abs_int(r.y as int) >= 32768 || abs_int(r.z as int)
                >= 32768,
            sqnorm_spec(self) >= 16382 ==> FP_ONE - 64 <= sqnorm_spec(r) <= FP_ONE + 64,
    {
        proof {
            lemma_dot_fits(self, self, 0x40_0000_0000, 0x40_0000_0000);
            lemma_sqnorm_nonneg(self);
            if sqnorm_spec(self) >= 16382 {
                lemma_normalize_unit_band(self);
            }
        }
        let s = self.sqnorm();
        let n = fp_sqrt(s);
        proof {
            lemma_normalize_bounds(self);
        }
        Vec3 { x: fp_div(self.x, n), y: fp_div(self.y, n), z: fp_div(self.z, n) }
    }
}

/// The normalized vector as a value: the components `normalize` returns.
pub open spec fn unit_spec(v: Vec3) -> Vec3 {
    Vec3 {
        x: fp_div_spec(v.x as int, norm_spec(v)) as i64,
        y: fp_div_spec(v.y as int, norm_spec(v)) as i64,
        z: fp_div_spec(v.z as int, norm_spec(v)) as i64,
    }
}

/// Exact value of the dot product.
pub open spec fn dot_spec(u: Vec3, v: Vec3) -> int {
    fp_mul_spec(u.x as int, v.x as int) + fp_mul_spec(u.y as int, v.y as int) + fp_mul_spec(
        u.z as int,
        v.z as int,
    )
}

/// The intermediate products and sums of a dot product fit in a scalar.
pub open spec fn dot_fits(u: Vec3, v: Vec3) -> bool {
    &&& fits(fp_mul_spec(u.x as int, v.x as int))
    &&& fits(fp_mul_spec(u.y as int, v.y as int))
    &&& fits(fp_mul_spec(u.z as int, v.z as int))
    &&& fits(fp_mul_spec(u.x as int, v.x as int) + fp_mul_spec(u.y as int, v.y as int))
    &&& fits(dot_spec(u, v))
}

/// Exact value of the squared norm.
pub open spec fn sqnorm_spec(v: Vec3) -> int {
    dot_spec(v, v)
}

/// Exact value of the norm: the fixed-point square root of the squared norm.
pub open spec fn norm_spec(v: Vec3) -> int {
    sqrt_spec((sqnorm_spec(v) * 65536) as nat) as int
}

/// Exact value of the cross product, componentwise.
pub open spec fn cross_spec(u: Vec3, v: Vec3) -> (int, int, int) {
    (
        fp_mul_spec(u.y as int, v.z as int) - fp_mul_spec(u.z as int, v.y as int),
        fp_mul_spec(u.z as int, v.x as int) - fp_mul_spec(u.x as int, v.z as int),
        fp_mul_spec(u.x as int, v.y as int) - fp_mul_spec(u.y as int, v.x as int),
    )
}

/// The intermediate products and differences of a cross product fit.
pub open spec fn cross_fits(u: Vec3, v: Vec3) -> bool {
    &&& fits(fp_mul_spec(u.y as int, v.z as int))
    &&& fits(fp_mul_spec(u.z as int, v.y as int))
    &&& fits(fp_mul_spec(u.z as int, v.x as int))
    &&& fits(fp_mul_spec(u.x as int, v.z as int))
    &&& fits(fp_mul_spec(u.x as int, v.y as int))
    &&& fits(fp_mul_spec(u.y as int, v.x as int))
    &&& fits(cross_spec(u, v).0)
    &&& fits(cross_spec(u, v).1)
    &&& fits(cross_spec(u, v).2)
}

/// Bounded vectors have a fitting, bounded dot product.
pub proof fn lemma_dot_fits(u: Vec3, v: Vec3, bu: int, bv: int)
    requires
        u.bounded(bu),
        v.bounded(bv),
        0 <= bu,
        0 <= bv,
        bu * bv <= 0x2000_0000_0000_0000_0000,
    ensures
        dot_fits(u, v),
        abs_int(dot_spec(u, v)) * 65536 <= 3 * (bu * bv),
{
    lemma_fp_mul_fits(u.x as int, v.x as int, bu, bv);
    lemma_fp_mul_fits(u.y as int, v.y as int, bu, bv);
    lemma_fp_mul_fits(u.z as int, v.z as int, bu, bv);
}

/// Bounded vectors have a fitting, bounded cross product.
pub proof fn lemma_cross_fits(u: Vec3, v: Vec3, bu: int, bv: int)
    requires
        u.bounded(bu),
        v.bounded(bv),
        0 <= bu,
        0 <= bv,
        bu * bv <= 0x2000_0000_0000_0000_0000,
    ensures
        cross_fits(u, v),
        abs_int(cross_spec(u, v).0) * 65536 <= 2 * (bu * bv),
        abs_int(cross_spec(u, v).1) * 65536 <= 2 * (bu * bv),
        abs_int(cross_spec(u, v).2) * 65536 <= 2 * (bu * bv),
{
    lemma_fp_mul_fits(u.x as int, v.x as int, bu, bv);
    lemma_fp_mul_fits(u.y as int, v.y as int, bu, bv);
    lemma_fp_mul_fits(u.z as int, v.z as int, bu, bv);
    lemma_fp_mul_fits(u.x as int, v.y as int, bu, bv);
    lemma_fp_mul_fits(u.y as int, v.x as int, bu, bv);
    lemma_fp_mul_fits(u.x as int, v.z as int, bu, bv);
    lemma_fp_mul_fits(u.z as int, v.x as int, bu, bv);
    lemma_fp_mul_fits(u.y as int, v.z as int, bu, bv);
    lemma_fp_mul_fits(u.z as int, v.y as int, bu, bv);
}

/// Each term of a squared norm is nonnegative, so the whole is.
pub proof fn lemma_sqnorm_nonneg(v: Vec3)
    ensures
        sqnorm_spec(v) >= 0,
        fp_mul_spec(v.x as int, v.x as int) >= 0,
        fp_mul_spec(v.y as int, v.y as int) >= 0,
        fp_mul_spec(v.z as int, v.z as int) >= 0,
{
    crate::fp::lemma_fp_sq_nonneg(v.x as int);
    crate::fp::lemma_fp_sq_nonneg(v.y as int);
    crate::fp::lemma_fp_sq_nonneg(v.z as int);
}

/// Bounds for the components of a normalized vector: each has magnitude
/// below `2 * FP_ONE`, and the largest has magnitude at least `FP_ONE / 2`.
proof fn lemma_normalize_bounds(v: Vec3)
    requires
        v.bounded(0x40_0000_0000),
        sqnorm_spec(v) >= 1,
    ensures
        fits(fp_div_spec(v.x as int, norm_spec(v))),
        fits(fp_div_spec(v.y as int, norm_spec(v))),
        fits(fp_div_spec(v.z as int, norm_spec(v))),
        norm_spec(v) >= 256,
        abs_int(fp_div_spec(v.x as int, norm_spec(v))) <= 2 * FP_ONE,
        abs_int(fp_div_spec(v.y as int, norm_spec(v))) <= 2 * FP_ONE,
        abs_int(fp_div_spec(v.z as int, norm_spec(v))) <= 2 * FP_ONE,
        abs_int(fp_div_spec(v.x as int, norm_spec(v))) >= 32768 || abs_int(
            fp_div_spec(v.y as int, norm_spec(v)),
        ) >= 32768 || abs_int(fp_div_spec(v.z as int, norm_spec(v))) >= 32768,
{
    let s = sqnorm_spec(v);
    let m = (s * 65536) as nat;
    let n0 = sqrt_spec(m) as int;
    lemma_sqrt_spec_bracket(m);
    lemma_sqnorm_nonneg(v);
    // norm_spec(v) >= 256: otherwise (n0 + 1)^2 <= 65536 <= m.
    assert(n0 >= 256) by (nonlinear_arith)
        requires
            n0 >= 0,
            m >= 65536,
            m < (n0 + 1) * (n0 + 1),
    ;
    lemma_normalize_comp(v.x as int, s, n0);
    lemma_normalize_comp(v.y as int, s, n0);
    lemma_normalize_comp(v.z as int, s, n0);
    // The largest component: its square must carry at least a third of m.
    let ax = abs_int(v.x as int);
    let ay = abs_int(v.y as int);
    let az = abs_int(v.z as int);
    let cm = if ax >= ay && ax >= az {
        v.x as int
    } else if ay >= az {
        v.y as int
    } else {
        v.z as int
    };
    crate::fp::lemma_fp_sq_nonneg(v.x as int);
    crate::fp::lemma_fp_sq_nonneg(v.y as int);
    crate::fp::lemma_fp_sq_nonneg(v.z as int);
    assert(fp_mul_spec(v.x as int, v.x as int) <= fp_mul_spec(cm, cm) && fp_mul_spec(
        v.y as int,
        v.y as int,
    ) <= fp_mul_spec(cm, cm) && fp_mul_spec(v.z as int, v.z as int) <= fp_mul_spec(cm, cm)) by {
        lemma_sq_mono(v.x as int, cm);
        lemma_sq_mono(v.y as int, cm);
        lemma_sq_mono(v.z as int, cm);
    }
    let t = fp_mul_spec(cm, cm);
    assert(s <= 3 * t);
    assert(m <= 3 * (t * 65536)) by (nonlinear_arith)
        requires
            m == s * 65536,
            s <= 3 * t,
    ;
    assert(abs_int(cm) * abs_int(cm) == cm * cm) by (nonlinear_arith);
    assert(n0 * n0 <= 3 * (abs_int(cm) * abs_int(cm))) by (nonlinear_arith)
        requires
            n0 * n0 <= m,
            m <= 3 * (t * 65536),
            t * 65536 <= cm * cm,
            abs_int(cm) * abs_int(cm) == cm * cm,
    ;
    assert(n0 <= 2 * abs_int(cm)) by (nonlinear_arith)
        requires
            n0 * n0 <= 3 * (abs_int(cm) * abs_int(cm)),
            n0 >= 0,
            abs_int(cm) >= 0,
    ;
    assert(32768 * n0 <= abs_int(cm) * 65536) by (nonlinear_arith)
        requires
            n0 <= 2 * abs_int(cm),
    ;
    lemma_tdiv_lower(abs_int(cm) * 65536, n0, 32768);
    crate::fp::lemma_tdiv_abs(cm * 65536, n0);
    assert(abs_int(cm * 65536) == abs_int(cm) * 65536) by (nonlinear_arith);
}

/// Squaring the truncating-quotient bracket for one normalized
/// component: `rc = (vc * 2^16) / n0` truncated, so `rc^2 n0^2` brackets
/// `vc^2 2^32` up to `2 |rc| + 1` times `n0^2`.
proof fn lemma_band_component(vc: int, n0: int)
    requires
        n0 >= 1,
    ensures
        ({
            let rc = fp_div_spec(vc, n0);
            &&& (rc * rc) * (n0 * n0) <= (vc * vc) * (65536 * 65536)
            &&& (vc * vc) * (65536 * 65536) < ((rc * rc) + 2 * abs_int(rc) + 1) * (n0 * n0)
        }),
{
    let rc = fp_div_spec(vc, n0);
    let ar = abs_int(rc);
    let av = abs_int(vc);
    crate::fp::lemma_tdiv_abs(vc * 65536, n0);
    crate::fp::lemma_tdiv_pos(abs_int(vc * 65536), n0);
    assert(abs_int(vc * 65536) == av * 65536) by (nonlinear_arith)
        requires
            av == abs_int(vc),
    ;
    assert(ar * n0 <= av * 65536 && av * 65536 < (ar + 1) * n0);
    assert((rc * rc) * (n0 * n0) <= (vc * vc) * (65536 * 65536)) by (nonlinear_arith)
        requires
            ar == abs_int(rc),
            av == abs_int(vc),
            n0 >= 1,
            ar * n0 <= av * 65536,
    ;
    assert((vc * vc) * (65536 * 65536) < ((rc * rc) + 2 * ar + 1) * (n0 * n0)) by (nonlinear_arith)
        requires
            ar == abs_int(rc),
            av == abs_int(vc),
            n0 >= 1,
            av * 65536 < (ar + 1) * n0,
    ;
}

/// For inputs of at least a quarter of unit squared norm, normalization
/// lands within 64 ulps of unit squared norm: the quantitative form of
/// "producers of unit vectors enforce norm one within tolerance".
pub proof fn lemma_normalize_unit_band(v: Vec3)
    requires
        v.bounded(0x40_0000_0000),
        sqnorm_spec(v) >= 16382,
    ensures
        FP_ONE - 64 <= sqnorm_spec(unit_spec(v)) <= FP_ONE + 64,
{
    let s = sqnorm_spec(v);
    let m = s * 65536;
    let n0 = norm_spec(v);
    lemma_sqrt_spec_bracket(m as nat);
    lemma_sqnorm_nonneg(v);
    lemma_normalize_bounds(v);
    assert(n0 * n0 <= m && m < (n0 + 1) * (n0 + 1));
    assert(n0 >= 32765) by (nonlinear_arith)
        requires
            n0 >= 0,
            m >= 16382 * 65536,
            m < (n0 + 1) * (n0 + 1),
    ;
    let vx = v.x as int;
    let vy = v.y as int;
    let vz = v.z as int;
    let rx = fp_div_spec(vx, n0);
    let ry = fp_div_spec(vy, n0);
    let rz = fp_div_spec(vz, n0);
    let u = unit_spec(v);
    assert(u.x as int == rx && u.y as int == ry && u.z as int == rz);
    lemma_band_component(vx, n0);
    lemma_band_component(vy, n0);
    lemma_band_component(vz, n0);
    let bigu = (rx * rx) + (ry * ry) + (rz * rz);
    let bigv = (vx * vx) + (vy * vy) + (vz * vz);
    // Summing the three squared brackets.
    assert(bigu * (n0 * n0) <= bigv * (65536 * 65536)) by (nonlinear_arith)
        requires
            bigu == (rx * rx) + (ry * ry) + (rz * rz),
            bigv == (vx * vx) + (vy * vy) + (vz * vz),
            (rx * rx) * (n0 * n0) <= (vx * vx) * (65536 * 65536),
            (ry * ry) * (n0 * n0) <= (vy * vy) * (65536 * 65536),
            (rz * rz) * (n0 * n0) <= (vz * vz) * (65536 * 65536),
    ;
    let bigr = abs_int(rx) + abs_int(ry) + abs_int(rz);
    assert(bigv * (65536 * 65536) < (bigu + 2 * bigr + 3) * (n0 * n0)) by (nonlinear_arith)
        requires
            bigu == (rx * rx) + (ry * ry) + (rz * rz),
            bigv == (vx * vx) + (vy * vy) + (vz * vz),
            bigr == abs_int(rx) + abs_int(ry) + abs_int(rz),
            (vx * vx) * (65536 * 65536) < ((rx * rx) + 2 * abs_int(rx) + 1) * (n0 * n0),
            (vy * vy) * (65536 * 65536) < ((ry * ry) + 2 * abs_int(ry) + 1) * (n0 * n0),
            (vz * vz) * (65536 * 65536) < ((rz * rz) + 2 * abs_int(rz) + 1) * (n0 * n0),
    ;
    // The squared norms bracket the raw square sums.
    crate::fp::lemma_fp_sq_nonneg(vx);
    crate::fp::lemma_fp_sq_nonneg(vy);
    crate::fp::lemma_fp_sq_nonneg(vz);
    crate::fp::lemma_fp_sq_nonneg(rx);
    crate::fp::lemma_fp_sq_nonneg(ry);
    crate::fp::lemma_fp_sq_nonneg(rz);
    let sp = sqnorm_spec(u);
    assert(sp == fp_mul_spec(rx, rx) + fp_mul_spec(ry, ry) + fp_mul_spec(rz, rz));
    assert(sp * 65536 <= bigu && bigu < (sp + 3) * 65536);
    assert(s * 65536 <= bigv && bigv < (s + 3) * 65536);
    // Upper bound: otherwise the chain m < (n0+1)^2 is contradicted.
    assert(sp <= 65536 + 64) by (nonlinear_arith)
        requires
            sp * 65536 <= bigu,
            bigu * (n0 * n0) <= bigv * (65536 * 65536),
            bigv < (s + 3) * 65536,
            s * 65536 == m,
            m < (n0 + 1) * (n0 + 1),
            n0 >= 32765,
            sp >= 0,
    ;
    // Lower bound: the remainder terms cost at most 2 * 6 * 2^16 + 3.
    assert(abs_int(rx) <= 131072 && abs_int(ry) <= 131072 && abs_int(rz) <= 131072);
    assert(sp >= 65536 - 64) by (nonlinear_arith)
        requires
            bigv * (65536 * 65536) < (bigu + 2 * bigr + 3) * (n0 * n0),
            bigv >= s * 65536,
            s * 65536 == m,
            m >= n0 * n0,
            bigr <= 393216,
            bigu < (sp + 3) * 65536,
            n0 >= 32765,
    ;
}

/// Squares are monotone in the magnitude of the base.
proof fn lemma_sq_mono(a: int, b: int)
    requires
        abs_int(a) <= abs_int(b),
    ensures
        fp_mul_spec(a, a) <= fp_mul_spec(b, b),
{
    assert(0 <= a * a && a * a <= b * b) by (nonlinear_arith)
        requires
            abs_int(a) <= abs_int(b),
    ;
    assert(crate::fp::tdiv(a * a, 65536) <= crate::fp::tdiv(b * b, 65536)) by (nonlinear_arith)
        requires
            0 <= a * a <= b * b,
    ;
}

/// One component of a normalized vector fits and is below `2 * FP_ONE`.
proof fn lemma_normalize_comp(c: int, s: int, n0: int)
    requires
        s >= 1,
        fp_mul_spec(c, c) <= s,
        fp_mul_spec(c, c) >= 0,
        n0 >= 256,
        n0 * n0 <= s * 65536,
        s * 65536 < (n0 + 1) * (n0 + 1),
    ensures
        fits(fp_div_spec(c, n0)),
        abs_int(fp_div_spec(c, n0)) <= 2 * FP_ONE,
{
    crate::fp::lemma_fp_sq_nonneg(c);
    // c * c < (s + 1) * 65536 <= (n0 + 1)^2 - 1 + 65536 <= n0^2 + 258 * n0 <= (2 n0)^2
    assert(c * c < 4 * (n0 * n0)) by (nonlinear_arith)
        requires
            c * c < (fp_mul_spec(c, c) + 1) * 65536,
            fp_mul_spec(c, c) <= s,
            s * 65536 < (n0 + 1) * (n0 + 1),
            n0 >= 256,
    ;
    assert(abs_int(c) <= 2 * n0) by (nonlinear_arith)
        requires
            c * c < 4 * (n0 * n0),
            n0 >= 0,
    ;
    lemma_fp_div_fits(c, n0, 2 * n0, n0);
    assert(abs_int(fp_div_spec(c, n0)) <= 2 * 65536) by (nonlinear_arith)
        requires
            abs_int(fp_div_spec(c, n0)) * n0 <= (2 * n0) * 65536,
            n0 > 0,
            abs_int(fp_div_spec(c, n0)) >= 0,
    ;
}

} // verus!
