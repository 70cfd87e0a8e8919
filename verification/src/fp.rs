//! Fixed-point scalar arithmetic.
//!
//! A scalar is an `i64` holding a real value scaled by `FP_ONE` (2^16).
//! All operations round toward zero; each executable operation's contract
//! states its exact result over mathematical integers.

use vstd::prelude::*;

verus! {

/// The fixed-point representation of 1.0 (the scaling factor 2^16).
pub const FP_ONE: i64 = 65536;

/// Magnitude of an integer.
pub open spec fn abs_int(x: int) -> int {
    if x < 0 {
        -x
    } else {
        x
    }
}

/// Division rounding toward zero (the rounding used by every executable
/// operation in this module); `d` must not be zero.
pub open spec fn tdiv(n: int, d: int) -> int {
    let q = abs_int(n) / abs_int(d);
    if (n < 0) != (d < 0) {
        -q
    } else {
        q
    }
}

/// Whether `x` can be held by an `i64` scalar (symmetric range).
pub open spec fn fits(x: int) -> bool {
    -0x7fff_ffff_ffff_ffff <= x <= 0x7fff_ffff_ffff_ffff
}

/// Exact value of the fixed-point product of `a` and `b`.
pub open spec fn fp_mul_spec(a: int, b: int) -> int {
    tdiv(a * b, FP_ONE as int)
}

/// Exact value of the fixed-point quotient of `a` by `b`.
pub open spec fn fp_div_spec(a: int, b: int) -> int {
    tdiv(a * (FP_ONE as int), b)
}

/// Integer square root: the greatest `r` with `r * r <= n`.
pub open spec fn sqrt_spec(n: nat) -> nat
    decreases n,
{
    if n < 1 {
        0
    } else {
        let r = 2 * sqrt_spec(n / 4);
        if (r + 1) * (r + 1) <= n {
            r + 1
        } else {
            r
        }
    }
}

/// `sqrt_spec` really is the integer square root.
pub proof fn lemma_sqrt_spec_bracket(n: nat)
    ensures
        sqrt_spec(n) * sqrt_spec(n) <= n,
        n < (sqrt_spec(n) + 1) * (sqrt_spec(n) + 1),
    decreases n,
{
    if n < 1 {
        let s = sqrt_spec(n);
        assert(s == 0);
        assert(s * s == 0) by (nonlinear_arith)
            requires
                s == 0nat,
        ;
        assert((s + 1) * (s + 1) == 1) by (nonlinear_arith)
            requires
                s == 0nat,
        ;
    } else {
        let q = n / 4;
        let r0 = sqrt_spec(q);
        lemma_sqrt_spec_bracket(q);
        vstd::arithmetic::div_mod::lemma_fundamental_div_mod(n as int, 4);
        assert(4 * q <= n && n < 4 * (q + 1));
        assert((2 * r0) * (2 * r0) <= 4 * q) by (nonlinear_arith)
            requires
                r0 * r0 <= q,
        ;
        assert(4 * (q + 1) <= (2 * r0 + 2) * (2 * r0 + 2)) by (nonlinear_arith)
            requires
                q + 1 <= (r0 + 1) * (r0 + 1),
        ;
        let s = sqrt_spec(n);
        if (2 * r0 + 1) * (2 * r0 + 1) <= n {
            assert(s == 2 * r0 + 1);
            assert(s * s <= n) by (nonlinear_arith)
                requires
                    s == 2 * r0 + 1,
                    (2 * r0 + 1) * (2 * r0 + 1) <= n,
            ;
            assert(n < (s + 1) * (s + 1)) by (nonlinear_arith)
                requires
                    s == 2 * r0 + 1,
                    n < 4 * (q + 1),
                    4 * (q + 1) <= (2 * r0 + 2) * (2 * r0 + 2),
            ;
        } else {
            assert(s == 2 * r0);
            assert(s * s <= n) by (nonlinear_arith)
                requires
                    s == 2 * r0,
                    (2 * r0) * (2 * r0) <= 4 * q,
                    4 * q <= n,
            ;
            assert(n < (s + 1) * (s + 1)) by (nonlinear_arith)
                requires
                    s == 2 * r0,
                    !((2 * r0 + 1) * (2 * r0 + 1) <= n),
            ;
        }
    }
}

/// The bracket `r*r <= n < (r+1)*(r+1)` determines `r` uniquely.
pub proof fn lemma_sqrt_unique(n: nat, r: nat)
    requires
        r * r <= n,
        n < (r + 1) * (r + 1),
    ensures
        r == sqrt_spec(n),
{
    lemma_sqrt_spec_bracket(n);
    let s = sqrt_spec(n);
    if r < s {
        assert((r + 1) * (r + 1) <= s * s) by (nonlinear_arith)
            requires
                r + 1 <= s,
        ;
    }
    if s < r {
        assert((s + 1) * (s + 1) <= r * r) by (nonlinear_arith)
            requires
                s + 1 <= r,
        ;
    }
}

/// Magnitude bound for a product from magnitude bounds on the factors.
pub proof fn lemma_mul_bound(a: int, b: int, aa: int, bb: int)
    by (nonlinear_arith)
    requires
        -aa <= a <= aa,
        -bb <= b <= bb,
    ensures
        -(aa * bb) <= a * b <= aa * bb,
{
}

/// Magnitude bound for a truncating quotient: `|n / d| * |d| <= |n|`.
pub proof fn lemma_tdiv_bound(n: int, d: int)
    by (nonlinear_arith)
    requires
        d != 0,
    ensures
        abs_int(tdiv(n, d)) * abs_int(d) <= abs_int(n),
        abs_int(tdiv(n, d)) <= abs_int(n),
{
}

/// For nonnegative operands, the truncating quotient brackets `n`.
pub proof fn lemma_tdiv_pos(n: int, d: int)
    by (nonlinear_arith)
    requires
        n >= 0,
        d > 0,
    ensures
        0 <= tdiv(n, d),
        tdiv(n, d) * d <= n,
        n < (tdiv(n, d) + 1) * d,
{
}

/// The truncating quotient of a nonnegative value is at least `k` once
/// `n` reaches `k * d`.
pub proof fn lemma_tdiv_lower(n: int, d: int, k: int)
    by (nonlinear_arith)
    requires
        d > 0,
        0 <= k,
        k * d <= n,
    ensures
        k <= tdiv(n, d),
{
}

/// A fixed-point product of bounded factors fits and is itself bounded.
pub proof fn lemma_fp_mul_fits(a: int, b: int, aa: int, bb: int)
    requires
        -aa <= a <= aa,
        -bb <= b <= bb,
        0 <= aa,
        0 <= bb,
        aa * bb <= 0x7fff_ffff_ffff_ffff * 0x1_0000,
    ensures
        fits(fp_mul_spec(a, b)),
        abs_int(fp_mul_spec(a, b)) * 65536 <= aa * bb,
{
    lemma_mul_bound(a, b, aa, bb);
    lemma_tdiv_bound(a * b, FP_ONE as int);
}

/// A fixed-point quotient by a divisor of magnitude at least `dd` fits and
/// is bounded by `|a| * FP_ONE / dd`.
pub proof fn lemma_fp_div_fits(a: int, b: int, aa: int, dd: int)
    requires
        -aa <= a <= aa,
        0 <= aa,
        0 < dd <= abs_int(b),
        aa * 65536 <= 0x7fff_ffff_ffff_ffff * dd,
    ensures
        fits(fp_div_spec(a, b)),
        abs_int(fp_div_spec(a, b)) * dd <= aa * 65536,
{
    lemma_tdiv_bound(a * 65536, b);
    let q = abs_int(fp_div_spec(a, b));
    assert(abs_int(a * 65536) == abs_int(a) * 65536) by (nonlinear_arith);
    assert(q * dd <= q * abs_int(b)) by (nonlinear_arith)
        requires
            0 <= q,
            0 < dd <= abs_int(b),
    ;
    assert(q <= 0x7fff_ffff_ffff_ffff) by (nonlinear_arith)
        requires
            q * dd <= aa * 65536,
            aa * 65536 <= 0x7fff_ffff_ffff_ffff * dd,
            0 < dd,
            0 <= q,
    ;
}

/// Fixed-point product, rounding toward zero.
pub fn fp_mul(a: i64, b: i64) -> (r: i64)
    requires
        fits(fp_mul_spec(a as int, b as int)),
    ensures
        r == fp_mul_spec(a as int, b as int),
{
    proof {
        lemma_mul_bound(a as int, b as int, 0x8000_0000_0000_0000, 0x8000_0000_0000_0000);
    }
    let p: i128 = (a as i128) * (b as i128);
    let neg: bool = p < 0;
    let mag: u128 = if neg {
        (-p) as u128
    } else {
        p as u128
    };
    let q: u128 = mag / 65536;
    proof {
        lemma_tdiv_bound(p as int, FP_ONE as int);
    }
    if neg {
        -(q as i64)
    } else {
        q as i64
    }
}

/// Fixed-point quotient, rounding toward zero.
pub fn fp_div(a: i64, b: i64) -> (r: i64)
    requires
        b != 0,
        fits(fp_div_spec(a as int, b as int)),
    ensures
        r == fp_div_spec(a as int, b as int),
{
    let n: i128 = (a as i128) * 65536;
    let neg: bool = (n < 0) != (b < 0);
    let nmag: u128 = if n < 0 {
        (-n) as u128
    } else {
        n as u128
    };
    let dmag: u128 = if b < 0 {
        (-(b as i128)) as u128
    } else {
        b as u128
    };
    let q: u128 = nmag / dmag;
    proof {
        lemma_tdiv_bound(a as int * (FP_ONE as int), abs_int(b as int));
    }
    if neg {
        -(q as i64)
    } else {
        q as i64
    }
}

/// Integer square root of a `u128` below 2^126.
pub fn isqrt_u128(m: u128) -> (r: u128)
    requires
        m < 0x4000_0000_0000_0000_0000_0000_0000_0000,
    ensures
        r == sqrt_spec(m as nat),
        r < 0x8000_0000_0000_0000,
{
    let mut lo: u128 = 0;
    let mut hi: u128 = 0x8000_0000_0000_0000;
    proof {
        assert(hi * hi == 0x4000_0000_0000_0000_0000_0000_0000_0000int) by (nonlinear_arith)
            requires
                hi == 0x8000_0000_0000_0000u128,
        ;
    }
    while lo + 1 < hi
        invariant
            lo < hi <= 0x8000_0000_0000_0000,
            lo * lo <= m,
            m < hi * hi,
        decreases hi - lo,
    {
        let mid: u128 = lo + (hi - lo) / 2;
        proof {
            assert(mid * mid < 0x1_0000_0000_0000_0000_0000_0000_0000_0000int) by (nonlinear_arith)
                requires
                    mid <= 0x8000_0000_0000_0000,
            ;
        }
        if mid * mid <= m {
            lo = mid;
        } else {
            hi = mid;
        }
    }
    proof {
        lemma_sqrt_unique(m as nat, lo as nat);
    }
    lo
}

/// Fixed-point square root: the integer square root of `x * FP_ONE`,
/// so the result is again a fixed-point scalar.
pub fn fp_sqrt(x: i64) -> (r: i64)
    requires
        x >= 0,
    ensures
        r >= 0,
        r == sqrt_spec((x * FP_ONE) as nat),
        r * r <= x * FP_ONE,
        x * FP_ONE < (r + 1) * (r + 1),
{
    let m: u128 = (x as u128) * 65536;
    let r: u128 = isqrt_u128(m);
    proof {
        lemma_sqrt_spec_bracket(m as nat);
        assert(r * r <= m && r <= 0x8000_0000_0000_0000 ==> r < 0x1_0000_0000_0000int) by (nonlinear_arith)
            requires
                m < 0x1_0000_0000_0000_0000_0000_0000u128,
        ;
    }
    r as i64
}

/// A squared fixed-point term is nonnegative and brackets the square.
pub proof fn lemma_fp_sq_nonneg(c: int)
    ensures
        0 <= fp_mul_spec(c, c),
        fp_mul_spec(c, c) * 65536 <= c * c,
        c * c < (fp_mul_spec(c, c) + 1) * 65536,
{
    assert(c * c >= 0) by (nonlinear_arith);
    lemma_tdiv_pos(c * c, 65536);
}

/// A fixed-point product with a nonnegative factor at most one does not
/// grow the other factor.
pub proof fn lemma_fp_mul_le_left(a: int, b: int)
    by (nonlinear_arith)
    requires
        0 <= a,
        0 <= b <= 65536,
    ensures
        0 <= fp_mul_spec(a, b) <= a,
{
}

/// The truncating-division identity: the remainder `n - tdiv(n, d) * d`
/// is smaller than the divisor in magnitude.
pub proof fn lemma_tdiv_rem(n: int, d: int)
    by (nonlinear_arith)
    requires
        d > 0,
    ensures
        abs_int(n - tdiv(n, d) * d) < d,
{
}

/// Truncating division commutes with the magnitude.
pub proof fn lemma_tdiv_abs(n: int, d: int)
    by (nonlinear_arith)
    requires
        d > 0,
    ensures
        abs_int(tdiv(n, d)) == tdiv(abs_int(n), d),
{
}

/// A squared term of magnitude at least 2^8 contributes at least one ulp.
pub proof fn lemma_fp_sq_unit(q: int)
    by (nonlinear_arith)
    requires
        abs_int(q) >= 256,
    ensures
        fp_mul_spec(q, q) >= 1,
{
}

/// Negating one factor negates a fixed-point product.
pub proof fn lemma_fp_mul_neg(a: int, b: int)
    by (nonlinear_arith)
    ensures
        fp_mul_spec(a, -b) == -fp_mul_spec(a, b),
{
}

/// Truncating division of wide integers by a positive divisor.
pub fn idiv128(n: i128, d: i128) -> (r: i128)
    requires
        d > 0,
        n > -0x8000_0000_0000_0000_0000_0000_0000_0000,
    ensures
        r == tdiv(n as int, d as int),
{
    let neg: bool = n < 0;
    let mag: u128 = if neg {
        (-n) as u128
    } else {
        n as u128
    };
    let q: u128 = mag / (d as u128);
    proof {
        lemma_tdiv_bound(n as int, d as int);
    }
    if neg {
        -(q as i128)
    } else {
        q as i128
    }
}

/// Multiplying by `FP_ONE` in fixed point is exact.
pub proof fn lemma_fp_mul_one(a: int)
    by (nonlinear_arith)
    ensures
        fp_mul_spec(a, FP_ONE as int) == a,
{
}

/// Plain truncating integer division by a positive divisor.
pub fn idiv(a: i64, b: i64) -> (r: i64)
    requires
        b > 0,
        a > -0x8000_0000_0000_0000,
    ensures
        r == tdiv(a as int, b as int),
{
    let neg: bool = a < 0;
    let mag: u64 = if neg {
        (-a) as u64
    } else {
        a as u64
    };
    let q: u64 = mag / (b as u64);
    proof {
        lemma_tdiv_bound(a as int, b as int);
    }
    if neg {
        -(q as i64)
    } else {
        q as i64
    }
}

/// Pi as a fixed-point scalar.
pub const PI_FP: i64 = 205887;

/// Pi / 2 as a fixed-point scalar.
pub const HALF_PI_FP: i64 = 102943;

/// 2 * Pi as a fixed-point scalar.
pub const TWO_PI_FP: i64 = 411774;

/// Exact value of the sine polynomial `x - x^3/6 + x^5/120 - x^7/5040`
/// evaluated in fixed point.
pub open spec fn sin_poly_spec(x: int) -> int {
    let x2 = fp_mul_spec(x, x);
    let x3 = fp_mul_spec(x2, x);
    let x5 = fp_mul_spec(x3, x2);
    let x7 = fp_mul_spec(x5, x2);
    x - tdiv(x3, 6) + tdiv(x5, 120) - tdiv(x7, 5040)
}

/// Exact value of the cosine polynomial `1 - x^2/2 + x^4/24 - x^6/720`
/// evaluated in fixed point.
pub open spec fn cos_poly_spec(x: int) -> int {
    let x2 = fp_mul_spec(x, x);
    let x4 = fp_mul_spec(x2, x2);
    let x6 = fp_mul_spec(x4, x2);
    FP_ONE as int - tdiv(x2, 2) + tdiv(x4, 24) - tdiv(x6, 720)
}

/// Exact value of `fp_sincos`: quadrant reduction over one turn, then the
/// two polynomials on `[0, Pi/2]`.
pub open spec fn sincos_spec(a: int) -> (int, int) {
    if a < HALF_PI_FP as int {
        (sin_poly_spec(a), cos_poly_spec(a))
    } else if a < PI_FP as int {
        (sin_poly_spec(PI_FP as int - a), -cos_poly_spec(PI_FP as int - a))
    } else if a < PI_FP as int + HALF_PI_FP as int {
        (-sin_poly_spec(a - PI_FP as int), -cos_poly_spec(a - PI_FP as int))
    } else {
        (-sin_poly_spec(TWO_PI_FP as int - a), cos_poly_spec(TWO_PI_FP as int - a))
    }
}

/// The polynomial terms stay small on `[0, Pi/2]` (with a little slack).
proof fn lemma_poly_bounds(x: int)
    requires
        0 <= x <= 103000,
    ensures
        0 <= fp_mul_spec(x, x) <= 161880,
        0 <= fp_mul_spec(fp_mul_spec(x, x), x) <= 254420,
        0 <= fp_mul_spec(fp_mul_spec(fp_mul_spec(x, x), x), fp_mul_spec(x, x)) <= 628450,
        0 <= fp_mul_spec(
            fp_mul_spec(fp_mul_spec(fp_mul_spec(x, x), x), fp_mul_spec(x, x)),
            fp_mul_spec(x, x),
        ) <= 1552400,
        0 <= fp_mul_spec(fp_mul_spec(x, x), fp_mul_spec(x, x)) <= 399870,
        0 <= fp_mul_spec(fp_mul_spec(fp_mul_spec(x, x), fp_mul_spec(x, x)), fp_mul_spec(x, x))
            <= 987800,
        -2 * FP_ONE <= sin_poly_spec(x) <= 2 * FP_ONE,
        -2 * FP_ONE <= cos_poly_spec(x) <= 2 * FP_ONE,
{
    let x2 = fp_mul_spec(x, x);
    lemma_fp_mul_fits(x, x, 103000, 103000);
    lemma_tdiv_pos(x * x, 65536);
    let x3 = fp_mul_spec(x2, x);
    lemma_fp_mul_fits(x2, x, 161880, 103000);
    lemma_tdiv_pos(x2 * x, 65536);
    let x5 = fp_mul_spec(x3, x2);
    lemma_fp_mul_fits(x3, x2, 254420, 161880);
    lemma_tdiv_pos(x3 * x2, 65536);
    let x7 = fp_mul_spec(x5, x2);
    lemma_fp_mul_fits(x5, x2, 628450, 161880);
    lemma_tdiv_pos(x5 * x2, 65536);
    let x4 = fp_mul_spec(x2, x2);
    lemma_fp_mul_fits(x2, x2, 161880, 161880);
    lemma_tdiv_pos(x2 * x2, 65536);
    let x6 = fp_mul_spec(x4, x2);
    lemma_fp_mul_fits(x4, x2, 399870, 161880);
    lemma_tdiv_pos(x4 * x2, 65536);
    lemma_tdiv_pos(x3, 6);
    lemma_tdiv_pos(x5, 120);
    lemma_tdiv_pos(x7, 5040);
    lemma_tdiv_pos(x2, 2);
    lemma_tdiv_pos(x4, 24);
    lemma_tdiv_pos(x6, 720);
    lemma_tdiv_small(x3, 6);
    lemma_tdiv_small(x5, 120);
    lemma_tdiv_small(x7, 5040);
    lemma_tdiv_small(x2, 2);
    lemma_tdiv_small(x4, 24);
    lemma_tdiv_small(x6, 720);
}

/// Dividing a nonnegative value by a positive divisor does not grow it.
proof fn lemma_tdiv_small(n: int, d: int)
    by (nonlinear_arith)
    requires
        n >= 0,
        d >= 1,
    ensures
        tdiv(n, d) <= n,
        tdiv(n, d) * d <= n,
{
}

/// Sine polynomial on `[0, Pi/2]` (with slack), evaluated in fixed point.
fn sin_poly(x: i64) -> (r: i64)
    requires
        0 <= x <= 103000,
    ensures
        r == sin_poly_spec(x as int),
        -2 * FP_ONE <= r <= 2 * FP_ONE,
{
    proof {
        lemma_poly_bounds(x as int);
    }
    let x2 = fp_mul(x, x);
    let x3 = fp_mul(x2, x);
    let x5 = fp_mul(x3, x2);
    let x7 = fp_mul(x5, x2);
    x - idiv(x3, 6) + idiv(x5, 120) - idiv(x7, 5040)
}

/// Cosine polynomial on `[0, Pi/2]` (with slack), evaluated in fixed point.
fn cos_poly(x: i64) -> (r: i64)
    requires
        0 <= x <= 103000,
    ensures
        r == cos_poly_spec(x as int),
        -2 * FP_ONE <= r <= 2 * FP_ONE,
{
    proof {
        lemma_poly_bounds(x as int);
    }
    let x2 = fp_mul(x, x);
    let x4 = fp_mul(x2, x2);
    let x6 = fp_mul(x4, x2);
    FP_ONE - idiv(x2, 2) + idiv(x4, 24) - idiv(x6, 720)
}

/// Fixed-point sine and cosine over one turn `[0, 2 * Pi]`.
pub fn fp_sincos(a: i64) -> (r: (i64, i64))
    requires
        0 <= a <= TWO_PI_FP,
    ensures
        r.0 == sincos_spec(a as int).0,
        r.1 == sincos_spec(a as int).1,
        -2 * FP_ONE <= r.0 <= 2 * FP_ONE,
        -2 * FP_ONE <= r.1 <= 2 * FP_ONE,
{
    if a < HALF_PI_FP {
        (sin_poly(a), cos_poly(a))
    } else if a < PI_FP {
        (sin_poly(PI_FP - a), -cos_poly(PI_FP - a))
    } else if a < PI_FP + HALF_PI_FP {
        (-sin_poly(a - PI_FP), -cos_poly(a - PI_FP))
    } else {
        (-sin_poly(TWO_PI_FP - a), cos_poly(TWO_PI_FP - a))
    }
}

} // verus!
