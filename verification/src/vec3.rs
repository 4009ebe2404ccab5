//! Three-component fixed-point vectors, used for positions, directions and
//! colors (one whole unit per channel before gamma correction).
//!
//! Every arithmetic method returns exactly the value of its spec-level
//! counterpart (`add3`, `dot3`, `reflect3`, ...). Magnitude preconditions
//! keep all intermediates inside `i64`; the normalizing operations guard
//! degenerate inputs (a vector too short to normalize) by returning the
//! zero vector, and that guard is part of their specification.

use vstd::prelude::*;
use vstd::math::abs;
use crate::fixed::{SCALE, MUL_ARG_MAX, DIV_ARG_MAX, fmul, fdiv, fsqrt};
use crate::fixed::{fx_mul, fx_div, fx_sqrt, lemma_fmul_bound};
use crate::rng::random_fixed;

verus! {

/// Componentwise magnitude cap accepted by `dot`, `cross` and the other
/// product-forming methods.
pub const VEC_MAX: i64 = 0x10_0000_0000;

/// Cap on the components of a normalized vector: a unit vector's components
/// stay within twice one whole unit, and `unit` guards that bound.
pub const UNIT_MAX: i64 = 0x2_0000;

/// How far the squared length of a normalized vector may sit from one
/// whole unit: the normalizing operations guard this tolerance, so their
/// results are near-unit by construction (or the guarded zero vector).
pub const UNIT_LEN_TOL: i64 = 256;

#[derive(Clone, Copy, Debug, PartialEq, Eq, Structural)]
pub struct Vec3 {
    pub x: i64,
    pub y: i64,
    pub z: i64,
}

/// A color is a vector of three channels, one whole unit meaning full
/// intensity before gamma correction.
pub type Color = Vec3;

/// All three components have magnitude at most `m`.
pub open spec fn bounded3(v: Vec3, m: int) -> bool {
    abs(v.x as int) <= m && abs(v.y as int) <= m && abs(v.z as int) <= m
}

pub open spec fn zero3() -> Vec3 {
    (Vec3 { x: 0, y: 0, z: 0 })
}

pub open spec fn add3(a: Vec3, b: Vec3) -> Vec3 {
    (Vec3 { x: (a.x + b.x) as i64, y: (a.y + b.y) as i64, z: (a.z + b.z) as i64 })
}

pub open spec fn sub3(a: Vec3, b: Vec3) -> Vec3 {
    (Vec3 { x: (a.x - b.x) as i64, y: (a.y - b.y) as i64, z: (a.z - b.z) as i64 })
}

pub open spec fn neg3(a: Vec3) -> Vec3 {
    (Vec3 { x: (-a.x) as i64, y: (-a.y) as i64, z: (-a.z) as i64 })
}

/// Scaling by a fixed-point scalar, componentwise `fmul`.
pub open spec fn scale3(a: Vec3, s: int) -> Vec3 {
    (Vec3 {
        x: fmul(a.x as int, s) as i64,
        y: fmul(a.y as int, s) as i64,
        z: fmul(a.z as int, s) as i64,
    })
}

/// Division by a fixed-point scalar, componentwise `fdiv`.
pub open spec fn divs3(a: Vec3, s: int) -> Vec3 {
    (Vec3 {
        x: fdiv(a.x as int, s) as i64,
        y: fdiv(a.y as int, s) as i64,
        z: fdiv(a.z as int, s) as i64,
    })
}

/// Componentwise (Hadamard) product; how attenuation colors combine.
pub open spec fn mulv3(a: Vec3, b: Vec3) -> Vec3 {
    (Vec3 {
        x: fmul(a.x as int, b.x as int) as i64,
        y: fmul(a.y as int, b.y as int) as i64,
        z: fmul(a.z as int, b.z as int) as i64,
    })
}

pub open spec fn dot3(a: Vec3, b: Vec3) -> int {
    fmul(a.x as int, b.x as int) + fmul(a.y as int, b.y as int) + fmul(a.z as int, b.z as int)
}

pub open spec fn cross3(a: Vec3, b: Vec3) -> Vec3 {
    (Vec3 {
        x: (fmul(a.y as int, b.z as int) - fmul(a.z as int, b.y as int)) as i64,
        y: (fmul(a.z as int, b.x as int) - fmul(a.x as int, b.z as int)) as i64,
        z: (fmul(a.x as int, b.y as int) - fmul(a.y as int, b.x as int)) as i64,
    })
}

/// Reflection of `v` about the unit normal `n`: `v - 2 (v.n) n`.
pub open spec fn reflect3(v: Vec3, n: Vec3) -> Vec3 {
    sub3(v, scale3(n, 2 * dot3(v, n)))
}

/// Normalization: zero for degenerate inputs (too short to normalize, or
/// a quotient escaping the unit bound or the near-unit length tolerance),
/// otherwise division by the length.
pub open spec fn unit3(v: Vec3) -> Vec3 {
    let l = fsqrt(dot3(v, v));
    if l < 1 {
        zero3()
    } else {
        let q = divs3(v, l);
        if bounded3(q, 2 * SCALE) && abs(dot3(q, q) - SCALE) <= UNIT_LEN_TOL {
            q
        } else {
            zero3()
        }
    }
}

/// Snell refraction of the unit direction `v` at unit normal `n` with
/// refraction ratio `f`, decomposed into perpendicular and parallel parts.
pub open spec fn refract3(v: Vec3, n: Vec3, f: int) -> Vec3 {
    let cos = vstd::math::min(dot3(neg3(v), n), SCALE as int);
    let out_perp = scale3(add3(v, scale3(n, cos)), f);
    let d = SCALE - dot3(out_perp, out_perp);
    let out_par = scale3(n, -fsqrt(abs(d) as int));
    add3(out_perp, out_par)
}

/// A dot product of bounded vectors is bounded by three scaled products.
pub proof fn lemma_dot3_bound(a: Vec3, b: Vec3, ma: int, mb: int)
    requires
        bounded3(a, ma),
        bounded3(b, mb),
        0 <= ma,
        0 <= mb,
    ensures
        abs(dot3(a, b)) <= 3 * ((ma * mb) / (SCALE as int)),
{
    lemma_fmul_bound(a.x as int, b.x as int, ma, mb);
    lemma_fmul_bound(a.y as int, b.y as int, ma, mb);
    lemma_fmul_bound(a.z as int, b.z as int, ma, mb);
}

/// A normalized vector stays within twice one whole unit, in every branch
/// of `unit3`.
pub proof fn lemma_unit3_bound(v: Vec3)
    ensures
        bounded3(unit3(v), 2 * SCALE),
{
}

/// A normalized vector is either the guarded zero vector or has squared
/// length within the near-unit tolerance.
pub proof fn lemma_unit3_length(v: Vec3)
    ensures
        unit3(v) == zero3() || abs(dot3(unit3(v), unit3(v)) - SCALE) <= UNIT_LEN_TOL,
{
}

/// Reflecting about a unit-bounded normal grows a vector's components by
/// at most a factor of 25.
pub proof fn lemma_reflect3_bound(v: Vec3, n: Vec3, mv: int)
    requires
        bounded3(v, mv),
        bounded3(n, UNIT_MAX as int),
        0 <= mv,
    ensures
        bounded3(reflect3(v, n), 25 * mv),
{
    let d = dot3(v, n);
    lemma_dot3_bound(v, n, mv, UNIT_MAX as int);
    assert((mv * (UNIT_MAX as int)) / (SCALE as int) == 2 * mv) by {
        assert(mv * 0x2_0000 == (2 * mv) * 0x1_0000);
        vstd::arithmetic::div_mod::lemma_div_by_multiple(2 * mv, 0x1_0000);
    }
    lemma_fmul_bound(n.x as int, 2 * d, UNIT_MAX as int, 12 * mv);
    lemma_fmul_bound(n.y as int, 2 * d, UNIT_MAX as int, 12 * mv);
    lemma_fmul_bound(n.z as int, 2 * d, UNIT_MAX as int, 12 * mv);
    assert(((UNIT_MAX as int) * (12 * mv)) / (SCALE as int) == 24 * mv) by {
        assert((UNIT_MAX as int) * (12 * mv) == (24 * mv) * 0x1_0000) by (nonlinear_arith);
        vstd::arithmetic::div_mod::lemma_div_by_multiple(24 * mv, 0x1_0000);
    }
}

/// Componentwise bound for scaling by a bounded scalar.
pub proof fn lemma_scale3_bound(v: Vec3, s: int, mv: int, ms: int)
    requires
        bounded3(v, mv),
        abs(s) <= ms,
        0 <= mv,
        0 <= ms,
    ensures
        bounded3(scale3(v, s), (mv * ms) / (SCALE as int)),
{
    lemma_fmul_bound(v.x as int, s, mv, ms);
    lemma_fmul_bound(v.y as int, s, mv, ms);
    lemma_fmul_bound(v.z as int, s, mv, ms);
}

/// Division by a scalar of at least one whole unit does not grow the
/// components.
pub proof fn lemma_divs3_bound(v: Vec3, s: int, mv: int)
    requires
        bounded3(v, mv),
        SCALE <= abs(s),
        0 <= mv,
    ensures
        bounded3(divs3(v, s), mv),
{
    crate::fixed::lemma_fdiv_bound(v.x as int, s, mv);
    crate::fixed::lemma_fdiv_bound(v.y as int, s, mv);
    crate::fixed::lemma_fdiv_bound(v.z as int, s, mv);
}

/// Componentwise bound for a cross product.
pub proof fn lemma_cross3_bound(a: Vec3, b: Vec3, ma: int, mb: int)
    requires
        bounded3(a, ma),
        bounded3(b, mb),
        0 <= ma,
        0 <= mb,
    ensures
        bounded3(cross3(a, b), 2 * ((ma * mb) / (SCALE as int))),
{
    lemma_fmul_bound(a.y as int, b.z as int, ma, mb);
    lemma_fmul_bound(a.z as int, b.y as int, ma, mb);
    lemma_fmul_bound(a.z as int, b.x as int, ma, mb);
    lemma_fmul_bound(a.x as int, b.z as int, ma, mb);
    lemma_fmul_bound(a.x as int, b.y as int, ma, mb);
    lemma_fmul_bound(a.y as int, b.x as int, ma, mb);
}

/// Reflection about a unit normal reverses the normal component of a
/// vector: the dot product of `reflect3(v, n)` with `n` equals the
/// negation of `dot3(v, n)`, up to a rounding error of at most twelve raw
/// units plus six parts in `SCALE` of that dot product's magnitude.
#[verifier::rlimit(100)]
pub proof fn lemma_reflect3_opposes(v: Vec3, n: Vec3)
    requires
        dot3(n, n) == SCALE,
        bounded3(n, 2 * SCALE),
        bounded3(v, 0x100_0000),
    ensures
        65536 * 65536 * abs(dot3(reflect3(v, n), n) + dot3(v, n))
            <= 12 * 65536 * 65536 + 6 * 65536 * abs(dot3(v, n)),
{
    let v1 = v.x as int;
    let v2 = v.y as int;
    let v3 = v.z as int;
    let n1 = n.x as int;
    let n2 = n.y as int;
    let n3 = n.z as int;
    let d = dot3(v, n);
    lemma_dot3_bound(v, n, 0x100_0000, 2 * SCALE);

    let e11 = crate::fixed::trem(v1 * n1, 65536);
    let e12 = crate::fixed::trem(v2 * n2, 65536);
    let e13 = crate::fixed::trem(v3 * n3, 65536);
    crate::fixed::lemma_trem_bound(v1 * n1, 65536);
    crate::fixed::lemma_trem_bound(v2 * n2, 65536);
    crate::fixed::lemma_trem_bound(v3 * n3, 65536);
    let ea = e11 + e12 + e13;
    assert(65536 * d == v1 * n1 + v2 * n2 + v3 * n3 - ea);

    let m1 = fmul(n1, 2 * d);
    let m2 = fmul(n2, 2 * d);
    let m3 = fmul(n3, 2 * d);
    let e1 = crate::fixed::trem(n1 * (2 * d), 65536);
    let e2 = crate::fixed::trem(n2 * (2 * d), 65536);
    let e3 = crate::fixed::trem(n3 * (2 * d), 65536);
    crate::fixed::lemma_trem_bound(n1 * (2 * d), 65536);
    crate::fixed::lemma_trem_bound(n2 * (2 * d), 65536);
    crate::fixed::lemma_trem_bound(n3 * (2 * d), 65536);
    assert(65536 * m1 == n1 * (2 * d) - e1);
    assert(n1 * (2 * d) == 2 * (d * n1)) by (nonlinear_arith);
    assert(n2 * (2 * d) == 2 * (d * n2)) by (nonlinear_arith);
    assert(n3 * (2 * d) == 2 * (d * n3)) by (nonlinear_arith);
    lemma_fmul_bound(n1, 2 * d, 2 * SCALE, 0xC00_0000);
    lemma_fmul_bound(n2, 2 * d, 2 * SCALE, 0xC00_0000);
    lemma_fmul_bound(n3, 2 * d, 2 * SCALE, 0xC00_0000);

    let r1 = v1 - m1;
    let r2 = v2 - m2;
    let r3 = v3 - m3;
    assert(reflect3(v, n).x as int == r1);
    assert(reflect3(v, n).y as int == r2);
    assert(reflect3(v, n).z as int == r3);

    let dd = dot3(reflect3(v, n), n);
    let f1 = crate::fixed::trem(r1 * n1, 65536);
    let f2 = crate::fixed::trem(r2 * n2, 65536);
    let f3 = crate::fixed::trem(r3 * n3, 65536);
    crate::fixed::lemma_trem_bound(r1 * n1, 65536);
    crate::fixed::lemma_trem_bound(r2 * n2, 65536);
    crate::fixed::lemma_trem_bound(r3 * n3, 65536);
    let eb = f1 + f2 + f3;
    assert(65536 * dd == r1 * n1 + r2 * n2 + r3 * n3 - eb);

    assert(r1 * n1 == v1 * n1 - m1 * n1) by (nonlinear_arith)
        requires r1 == v1 - m1;
    assert(r2 * n2 == v2 * n2 - m2 * n2) by (nonlinear_arith)
        requires r2 == v2 - m2;
    assert(r3 * n3 == v3 * n3 - m3 * n3) by (nonlinear_arith)
        requires r3 == v3 - m3;

    assert(65536 * (m1 * n1) == 2 * (d * (n1 * n1)) - e1 * n1) by (nonlinear_arith)
        requires 65536 * m1 == 2 * (d * n1) - e1;
    assert(65536 * (m2 * n2) == 2 * (d * (n2 * n2)) - e2 * n2) by (nonlinear_arith)
        requires 65536 * m2 == 2 * (d * n2) - e2;
    assert(65536 * (m3 * n3) == 2 * (d * (n3 * n3)) - e3 * n3) by (nonlinear_arith)
        requires 65536 * m3 == 2 * (d * n3) - e3;

    let g1 = crate::fixed::trem(n1 * n1, 65536);
    let g2 = crate::fixed::trem(n2 * n2, 65536);
    let g3 = crate::fixed::trem(n3 * n3, 65536);
    crate::fixed::lemma_trem_bound(n1 * n1, 65536);
    crate::fixed::lemma_trem_bound(n2 * n2, 65536);
    crate::fixed::lemma_trem_bound(n3 * n3, 65536);
    assert(0 <= n1 * n1) by (nonlinear_arith);
    assert(0 <= n2 * n2) by (nonlinear_arith);
    assert(0 <= n3 * n3) by (nonlinear_arith);
    let ec = g1 + g2 + g3;
    assert(65536 * (SCALE as int) == n1 * n1 + n2 * n2 + n3 * n3 - ec);
    let q = n1 * n1 + n2 * n2 + n3 * n3;
    assert(q == 65536 * 65536 + ec);

    assert(d * (n1 * n1) + d * (n2 * n2) + d * (n3 * n3) == d * q) by (nonlinear_arith)
        requires q == n1 * n1 + n2 * n2 + n3 * n3;
    assert(d * q == 65536 * 65536 * d + d * ec) by (nonlinear_arith)
        requires q == 65536 * 65536 + ec;

    // the exact identity for the scaled error
    assert(65536 * (65536 * dd)
        == 65536 * (v1 * n1 + v2 * n2 + v3 * n3)
            - (65536 * (m1 * n1) + 65536 * (m2 * n2) + 65536 * (m3 * n3)) - 65536 * eb);
    assert(65536 * 65536 * (dd + d)
        == 65536 * ea - 65536 * eb - 2 * (d * ec) + (e1 * n1 + e2 * n2 + e3 * n3));

    // bound every error term
    assert(abs(e1 * n1) <= 65535 * 131072) by (nonlinear_arith)
        requires abs(e1) <= 65535, abs(n1) <= 131072;
    assert(abs(e2 * n2) <= 65535 * 131072) by (nonlinear_arith)
        requires abs(e2) <= 65535, abs(n2) <= 131072;
    assert(abs(e3 * n3) <= 65535 * 131072) by (nonlinear_arith)
        requires abs(e3) <= 65535, abs(n3) <= 131072;
    assert(abs(d * ec) <= abs(d) * 196605) by (nonlinear_arith)
        requires 0 <= ec <= 196605;
    lemma_scaled_error_bound(dd + d, d, ea, eb, d * ec, e1 * n1, e2 * n2, e3 * n3);
}

/// Refraction opposes the normal: for a unit normal and an incoming
/// direction whose cosine against it is within one whole unit, the
/// refracted direction's dot product with the normal is nonpositive up to
/// a rounding allowance of twenty-six raw units plus twelve parts in
/// `SCALE` of the refraction ratio (the parallel component only pushes it
/// further below the surface).
#[verifier::rlimit(100)]
#[verifier::spinoff_prover]
pub proof fn lemma_refract3_opposes(v: Vec3, n: Vec3, f: int)
    requires
        dot3(n, n) == SCALE,
        bounded3(n, 2 * SCALE),
        bounded3(v, 2 * SCALE),
        -SCALE <= dot3(neg3(v), n) <= SCALE,
        0 < f <= 0x10_0000,
    ensures
        65536 * dot3(refract3(v, n, f), n) <= 26 * 65536 + 12 * f,
{
    let n1 = n.x as int;
    let n2 = n.y as int;
    let n3 = n.z as int;
    let v1 = v.x as int;
    let v2 = v.y as int;
    let v3 = v.z as int;
    let d = dot3(neg3(v), n);
    assert(vstd::math::min(d, SCALE as int) == d);

    // the incoming dot product, decomposed
    let e01 = crate::fixed::trem((-v1) * n1, 65536);
    let e02 = crate::fixed::trem((-v2) * n2, 65536);
    let e03 = crate::fixed::trem((-v3) * n3, 65536);
    crate::fixed::lemma_trem_bound((-v1) * n1, 65536);
    crate::fixed::lemma_trem_bound((-v2) * n2, 65536);
    crate::fixed::lemma_trem_bound((-v3) * n3, 65536);
    let ea = e01 + e02 + e03;
    assert(65536 * d == (-v1) * n1 + (-v2) * n2 + (-v3) * n3 - ea);
    assert((-v1) * n1 == -(v1 * n1)) by (nonlinear_arith);
    assert((-v2) * n2 == -(v2 * n2)) by (nonlinear_arith);
    assert((-v3) * n3 == -(v3 * n3)) by (nonlinear_arith);

    // the scaled normal n * cos, decomposed
    let m1 = fmul(n1, d);
    let m2 = fmul(n2, d);
    let m3 = fmul(n3, d);
    let e1 = crate::fixed::trem(n1 * d, 65536);
    let e2 = crate::fixed::trem(n2 * d, 65536);
    let e3 = crate::fixed::trem(n3 * d, 65536);
    crate::fixed::lemma_trem_bound(n1 * d, 65536);
    crate::fixed::lemma_trem_bound(n2 * d, 65536);
    crate::fixed::lemma_trem_bound(n3 * d, 65536);
    lemma_fmul_bound(n1, d, 2 * SCALE, SCALE as int);
    lemma_fmul_bound(n2, d, 2 * SCALE, SCALE as int);
    lemma_fmul_bound(n3, d, 2 * SCALE, SCALE as int);

    // the perpendicular part p = (v + n cos) * f, decomposed
    let w1 = v1 + m1;
    let w2 = v2 + m2;
    let w3 = v3 + m3;
    let pre = add3(v, scale3(n, d));
    assert(pre.x as int == w1 && pre.y as int == w2 && pre.z as int == w3);
    let pv = scale3(pre, f);
    let p1 = fmul(w1, f);
    let p2 = fmul(w2, f);
    let p3 = fmul(w3, f);
    lemma_fmul_bound(w1, f, 4 * SCALE, 0x10_0000);
    lemma_fmul_bound(w2, f, 4 * SCALE, 0x10_0000);
    lemma_fmul_bound(w3, f, 4 * SCALE, 0x10_0000);
    assert(pv.x as int == p1 && pv.y as int == p2 && pv.z as int == p3);
    let g1 = crate::fixed::trem(w1 * f, 65536);
    let g2 = crate::fixed::trem(w2 * f, 65536);
    let g3 = crate::fixed::trem(w3 * f, 65536);
    crate::fixed::lemma_trem_bound(w1 * f, 65536);
    crate::fixed::lemma_trem_bound(w2 * f, 65536);
    crate::fixed::lemma_trem_bound(w3 * f, 65536);

    // the squared normal, decomposed
    let q1 = crate::fixed::trem(n1 * n1, 65536);
    let q2 = crate::fixed::trem(n2 * n2, 65536);
    let q3 = crate::fixed::trem(n3 * n3, 65536);
    crate::fixed::lemma_trem_bound(n1 * n1, 65536);
    crate::fixed::lemma_trem_bound(n2 * n2, 65536);
    crate::fixed::lemma_trem_bound(n3 * n3, 65536);
    assert(0 <= n1 * n1) by (nonlinear_arith);
    assert(0 <= n2 * n2) by (nonlinear_arith);
    assert(0 <= n3 * n3) by (nonlinear_arith);
    let ec = q1 + q2 + q3;
    let qq = n1 * n1 + n2 * n2 + n3 * n3;
    assert(qq == 65536 * 65536 + ec);

    // dot(p, n), decomposed
    let dp = dot3(pv, n);
    let f1 = crate::fixed::trem(p1 * n1, 65536);
    let f2 = crate::fixed::trem(p2 * n2, 65536);
    let f3 = crate::fixed::trem(p3 * n3, 65536);
    crate::fixed::lemma_trem_bound(p1 * n1, 65536);
    crate::fixed::lemma_trem_bound(p2 * n2, 65536);
    crate::fixed::lemma_trem_bound(p3 * n3, 65536);
    let eb = f1 + f2 + f3;
    assert(65536 * dp == p1 * n1 + p2 * n2 + p3 * n3 - eb);

    // chain the algebra: s^3 dp == f (-s ea' + d ec - sum e_i n_i) - s sum g_i n_i - s^2 eb
    assert(65536 * (m1 * n1) == 2 * 0 + (n1 * d) * n1 - e1 * n1) by (nonlinear_arith)
        requires 65536 * m1 == n1 * d - e1;
    assert(65536 * (m2 * n2) == 2 * 0 + (n2 * d) * n2 - e2 * n2) by (nonlinear_arith)
        requires 65536 * m2 == n2 * d - e2;
    assert(65536 * (m3 * n3) == 2 * 0 + (n3 * d) * n3 - e3 * n3) by (nonlinear_arith)
        requires 65536 * m3 == n3 * d - e3;
    assert((n1 * d) * n1 == d * (n1 * n1)) by (nonlinear_arith);
    assert((n2 * d) * n2 == d * (n2 * n2)) by (nonlinear_arith);
    assert((n3 * d) * n3 == d * (n3 * n3)) by (nonlinear_arith);
    assert(d * (n1 * n1) + d * (n2 * n2) + d * (n3 * n3) == d * qq) by (nonlinear_arith)
        requires qq == n1 * n1 + n2 * n2 + n3 * n3;
    assert(d * qq == 65536 * 65536 * d + d * ec) by (nonlinear_arith)
        requires qq == 65536 * 65536 + ec;
    assert(65536 * (p1 * n1) == (w1 * f) * n1 - g1 * n1) by (nonlinear_arith)
        requires 65536 * p1 == w1 * f - g1;
    assert(65536 * (p2 * n2) == (w2 * f) * n2 - g2 * n2) by (nonlinear_arith)
        requires 65536 * p2 == w2 * f - g2;
    assert(65536 * (p3 * n3) == (w3 * f) * n3 - g3 * n3) by (nonlinear_arith)
        requires 65536 * p3 == w3 * f - g3;
    assert((w1 * f) * n1 == f * (w1 * n1)) by (nonlinear_arith);
    assert((w2 * f) * n2 == f * (w2 * n2)) by (nonlinear_arith);
    assert((w3 * f) * n3 == f * (w3 * n3)) by (nonlinear_arith);
    assert(w1 * n1 == v1 * n1 + m1 * n1) by (nonlinear_arith)
        requires w1 == v1 + m1;
    assert(w2 * n2 == v2 * n2 + m2 * n2) by (nonlinear_arith)
        requires w2 == v2 + m2;
    assert(w3 * n3 == v3 * n3 + m3 * n3) by (nonlinear_arith)
        requires w3 == v3 + m3;
    let wsum = w1 * n1 + w2 * n2 + w3 * n3;
    assert(65536 * wsum == 65536 * (v1 * n1 + v2 * n2 + v3 * n3)
        + (65536 * 65536 * d + d * ec - (e1 * n1 + e2 * n2 + e3 * n3)));
    assert(65536 * (v1 * n1 + v2 * n2 + v3 * n3) == 65536 * (-(65536 * d) - ea));
    let err = -(65536 * ea) + d * ec - (e1 * n1 + e2 * n2 + e3 * n3);
    assert(65536 * wsum == err) by (nonlinear_arith)
        requires
            65536 * wsum == 65536 * (-(65536 * d) - ea)
                + (65536 * 65536 * d + d * ec - (e1 * n1 + e2 * n2 + e3 * n3)),
            err == -(65536 * ea) + d * ec - (e1 * n1 + e2 * n2 + e3 * n3);
    // bound the error terms
    assert(abs(e1 * n1) <= 65535 * 131072) by (nonlinear_arith)
        requires abs(e1) <= 65535, abs(n1) <= 131072;
    assert(abs(e2 * n2) <= 65535 * 131072) by (nonlinear_arith)
        requires abs(e2) <= 65535, abs(n2) <= 131072;
    assert(abs(e3 * n3) <= 65535 * 131072) by (nonlinear_arith)
        requires abs(e3) <= 65535, abs(n3) <= 131072;
    assert(abs(g1 * n1) <= 65535 * 131072) by (nonlinear_arith)
        requires abs(g1) <= 65535, abs(n1) <= 131072;
    assert(abs(g2 * n2) <= 65535 * 131072) by (nonlinear_arith)
        requires abs(g2) <= 65535, abs(n2) <= 131072;
    assert(abs(g3 * n3) <= 65535 * 131072) by (nonlinear_arith)
        requires abs(g3) <= 65535, abs(n3) <= 131072;
    assert(abs(d * ec) <= 65536 * 196605) by (nonlinear_arith)
        requires abs(d) <= 65536, 0 <= ec <= 196605;
    assert(abs(err) <= 65536 * 196605 + 65536 * 196605 + 3 * (65535 * 131072));
    assert(abs(err) <= 12 * (65536 * 65536));
    // three scale factors fold the whole perpendicular identity together
    let gsum = g1 * n1 + g2 * n2 + g3 * n3;
    assert(65536 * (65536 * (65536 * dp))
        == f * err - 65536 * gsum - 65536 * (65536 * eb))
        by (nonlinear_arith)
        requires
            65536 * dp == p1 * n1 + p2 * n2 + p3 * n3 - eb,
            65536 * (p1 * n1) == f * (w1 * n1) - g1 * n1,
            65536 * (p2 * n2) == f * (w2 * n2) - g2 * n2,
            65536 * (p3 * n3) == f * (w3 * n3) - g3 * n3,
            wsum == w1 * n1 + w2 * n2 + w3 * n3,
            gsum == g1 * n1 + g2 * n2 + g3 * n3,
            65536 * wsum == err;
    assert(f * err <= f * (12 * (65536 * 65536))) by (nonlinear_arith)
        requires abs(err) <= 12 * (65536 * 65536), 0 < f;
    lemma_refract_perp_fold(dp, f, err, gsum, eb);

    // the parallel part q = n * (-sq)
    let sq = fsqrt(abs(SCALE - dot3(pv, pv)) as int);
    crate::fixed::lemma_sqrt_floor((abs(SCALE - dot3(pv, pv)) * (SCALE as int)) as nat);
    lemma_dot3_bound(pv, pv, 0x40_0000, 0x40_0000);
    assert(sq * sq <= abs(SCALE - dot3(pv, pv)) * 65536);
    assert(sq <= 0x80_0000) by (nonlinear_arith)
        requires 0 <= sq, sq * sq <= 0x4000_0000_0000;
    let qv = scale3(n, -sq);
    let t1 = fmul(n1, -sq);
    let t2 = fmul(n2, -sq);
    let t3 = fmul(n3, -sq);
    lemma_fmul_bound(n1, -sq, 2 * SCALE, 0x80_0000);
    lemma_fmul_bound(n2, -sq, 2 * SCALE, 0x80_0000);
    lemma_fmul_bound(n3, -sq, 2 * SCALE, 0x80_0000);
    assert(qv.x as int == t1 && qv.y as int == t2 && qv.z as int == t3);
    let h1 = crate::fixed::trem(n1 * (-sq), 65536);
    let h2 = crate::fixed::trem(n2 * (-sq), 65536);
    let h3 = crate::fixed::trem(n3 * (-sq), 65536);
    crate::fixed::lemma_trem_bound(n1 * (-sq), 65536);
    crate::fixed::lemma_trem_bound(n2 * (-sq), 65536);
    crate::fixed::lemma_trem_bound(n3 * (-sq), 65536);
    let dq = dot3(qv, n);
    let k1 = crate::fixed::trem(t1 * n1, 65536);
    let k2 = crate::fixed::trem(t2 * n2, 65536);
    let k3 = crate::fixed::trem(t3 * n3, 65536);
    crate::fixed::lemma_trem_bound(t1 * n1, 65536);
    crate::fixed::lemma_trem_bound(t2 * n2, 65536);
    crate::fixed::lemma_trem_bound(t3 * n3, 65536);
    assert(65536 * (t1 * n1) == (n1 * (-sq)) * n1 - h1 * n1) by (nonlinear_arith)
        requires 65536 * t1 == n1 * (-sq) - h1;
    assert(65536 * (t2 * n2) == (n2 * (-sq)) * n2 - h2 * n2) by (nonlinear_arith)
        requires 65536 * t2 == n2 * (-sq) - h2;
    assert(65536 * (t3 * n3) == (n3 * (-sq)) * n3 - h3 * n3) by (nonlinear_arith)
        requires 65536 * t3 == n3 * (-sq) - h3;
    assert((n1 * (-sq)) * n1 == -(sq * (n1 * n1))) by (nonlinear_arith);
    assert((n2 * (-sq)) * n2 == -(sq * (n2 * n2))) by (nonlinear_arith);
    assert((n3 * (-sq)) * n3 == -(sq * (n3 * n3))) by (nonlinear_arith);
    assert(sq * (n1 * n1) + sq * (n2 * n2) + sq * (n3 * n3) == sq * qq) by (nonlinear_arith)
        requires qq == n1 * n1 + n2 * n2 + n3 * n3;
    assert(sq * qq >= 0) by (nonlinear_arith)
        requires 0 <= sq, 0 <= qq;
    assert(abs(h1 * n1) <= 65535 * 131072) by (nonlinear_arith)
        requires abs(h1) <= 65535, abs(n1) <= 131072;
    assert(abs(h2 * n2) <= 65535 * 131072) by (nonlinear_arith)
        requires abs(h2) <= 65535, abs(n2) <= 131072;
    assert(abs(h3 * n3) <= 65535 * 131072) by (nonlinear_arith)
        requires abs(h3) <= 65535, abs(n3) <= 131072;
    let ed = k1 + k2 + k3;
    assert(65536 * dq == t1 * n1 + t2 * n2 + t3 * n3 - ed);
    assert(65536 * (65536 * dq)
        == -(sq * qq) - (h1 * n1 + h2 * n2 + h3 * n3) - 65536 * ed)
        by (nonlinear_arith)
        requires
            65536 * dq == t1 * n1 + t2 * n2 + t3 * n3 - ed,
            65536 * (t1 * n1) == -(sq * (n1 * n1)) - h1 * n1,
            65536 * (t2 * n2) == -(sq * (n2 * n2)) - h2 * n2,
            65536 * (t3 * n3) == -(sq * (n3 * n3)) - h3 * n3,
            sq * (n1 * n1) + sq * (n2 * n2) + sq * (n3 * n3) == sq * qq;
    assert(65536 * 65536 * dq <= 9 * (65536 * 65536));
    assert(dq <= 9);

    // the sum: refraction is p + q, and truncated dots are nearly additive
    let rv = refract3(v, n, f);
    assert(rv == add3(pv, qv));
    let r1 = p1 + t1;
    let r2 = p2 + t2;
    let r3 = p3 + t3;
    assert(rv.x as int == r1 && rv.y as int == r2 && rv.z as int == r3);
    lemma_tdiv_sum_component(p1, t1, n1);
    lemma_tdiv_sum_component(p2, t2, n2);
    lemma_tdiv_sum_component(p3, t3, n3);
    assert(dot3(rv, n) <= dp + dq + 6);
    assert(65536 * dot3(rv, n) <= 65536 * (dp + dq + 6));
}

/// The truncated dot contribution of a summed component exceeds the sum
/// of the parts by at most two raw units.
proof fn lemma_tdiv_sum_component(p: int, t: int, nc: int)
    ensures
        fmul(p + t, nc) <= fmul(p, nc) + fmul(t, nc) + 2,
{
    crate::fixed::lemma_trem_bound((p + t) * nc, 65536);
    crate::fixed::lemma_trem_bound(p * nc, 65536);
    crate::fixed::lemma_trem_bound(t * nc, 65536);
    assert((p + t) * nc == p * nc + t * nc) by (nonlinear_arith);
    assert(65536 * fmul(p + t, nc) == (p + t) * nc - crate::fixed::trem((p + t) * nc, 65536));
    assert(65536 * fmul(p, nc) == p * nc - crate::fixed::trem(p * nc, 65536));
    assert(65536 * fmul(t, nc) == t * nc - crate::fixed::trem(t * nc, 65536));
}

/// Folding the perpendicular part's scaled identity into its bound.
proof fn lemma_refract_perp_fold(dp: int, f: int, err: int, gsum: int, eb: int)
    requires
        65536 * (65536 * (65536 * dp))
            == f * err - 65536 * gsum - 65536 * (65536 * eb),
        f * err <= f * (12 * (65536 * 65536)),
        abs(gsum) <= 3 * (65535 * 131072),
        abs(eb) <= 196605,
        0 < f,
    ensures
        65536 * dp <= 12 * f + 9 * 65536,
{
    assert(f * (12 * (65536 * 65536)) == 12 * f * (65536 * 65536)) by (nonlinear_arith);
    assert(65536 * gsum >= -(65536 * (3 * (65535 * 131072))));
    assert(65536 * (65536 * eb) >= -(65536 * (65536 * 196605))) by (nonlinear_arith)
        requires abs(eb) <= 196605;
    assert(65536 * (65536 * (65536 * dp))
        <= 12 * f * (65536 * 65536) + 9 * (65536 * (65536 * 65536)))
        by (nonlinear_arith)
        requires
            65536 * (65536 * (65536 * dp))
                <= f * (12 * (65536 * 65536)) + 65536 * (3 * (65535 * 131072))
                    + 65536 * (65536 * 196605),
            f * (12 * (65536 * 65536)) == 12 * f * (65536 * 65536);
    assert((65536 * dp) * (65536 * 65536) <= (12 * f + 9 * 65536) * (65536 * 65536))
        by (nonlinear_arith)
        requires 65536 * (65536 * (65536 * dp))
            <= 12 * f * (65536 * 65536) + 9 * (65536 * (65536 * 65536));
    assert(65536 * dp <= 12 * f + 9 * 65536) by (nonlinear_arith)
        requires (65536 * dp) * (65536 * 65536) <= (12 * f + 9 * 65536) * (65536 * 65536);
}

/// Folding the rounding-error budget of `lemma_reflect3_opposes` into the
/// final inequality.
proof fn lemma_scaled_error_bound(t: int, d: int, ea: int, eb: int, dec: int, s1: int,
    s2: int, s3: int)
    requires
        65536 * 65536 * t == 65536 * ea - 65536 * eb - 2 * dec + (s1 + s2 + s3),
        abs(ea) <= 196605,
        abs(eb) <= 196605,
        abs(dec) <= abs(d) * 196605,
        abs(s1) <= 65535 * 131072,
        abs(s2) <= 65535 * 131072,
        abs(s3) <= 65535 * 131072,
    ensures
        65536 * 65536 * abs(t) <= 12 * 65536 * 65536 + 6 * 65536 * abs(d),
{
    let ad = abs(d) as int;
    assert(0x1_0000_0000 * t == 65536 * 65536 * t) by (nonlinear_arith);
    assert(dec <= ad * 196605 && -dec <= ad * 196605);
    assert(2 * (ad * 196605) <= 393216 * ad) by (nonlinear_arith)
        requires 0 <= ad;
    if t >= 0 {
        assert(0x1_0000_0000 * t <= 51538821120 + 393216 * ad);
        assert(0x1_0000_0000 * abs(t) <= 0xC_0000_0000 + 393216 * ad);
    } else {
        assert(0x1_0000_0000 * (-t) <= 51538821120 + 393216 * ad);
        assert(0x1_0000_0000 * (-t) == 0x1_0000_0000 * abs(t)) by (nonlinear_arith)
            requires t < 0, abs(t) == -t;
        assert(0x1_0000_0000 * abs(t) <= 0xC_0000_0000 + 393216 * ad);
    }
    assert(65536 * 65536 * abs(t) == 0x1_0000_0000 * abs(t)) by (nonlinear_arith);
    assert(12 * 65536 * 65536 == 0xC_0000_0000) by (nonlinear_arith);
    assert(6 * 65536 * abs(d) == 393216 * ad) by (nonlinear_arith)
        requires ad == abs(d) as int;
}

/// The squared length of the fixed unit `z` vector is exactly one whole
/// unit.
proof fn lemma_fmul_unit_square()
    ensures
        fmul(0, 0) == 0,
        fmul(SCALE as int, SCALE as int) == SCALE,
{
    crate::fixed::lemma_tdiv_zero(SCALE as int);
    assert((SCALE as int) * (SCALE as int) == 0x1_0000_0000) by (nonlinear_arith);
    vstd::arithmetic::div_mod::lemma_div_by_multiple(SCALE as int, SCALE as int);
    assert(0x1_0000_0000int / 0x1_0000int == 0x1_0000int) by (nonlinear_arith);
}

/// Any vector's dot product with the zero vector is zero.
pub proof fn lemma_dot3_zero_vec(a: Vec3)
    ensures
        dot3(a, zero3()) == 0,
{
    crate::fixed::lemma_tdiv_zero(SCALE as int);
    assert((a.x as int) * 0 == 0) by (nonlinear_arith);
    assert((a.y as int) * 0 == 0) by (nonlinear_arith);
    assert((a.z as int) * 0 == 0) by (nonlinear_arith);
}

/// A vector's dot product with itself is nonnegative.
pub proof fn lemma_dot3_self_nonneg(v: Vec3)
    ensures
        0 <= dot3(v, v),
{
    assert(0 <= (v.x as int) * (v.x as int)) by (nonlinear_arith);
    assert(0 <= (v.y as int) * (v.y as int)) by (nonlinear_arith);
    assert(0 <= (v.z as int) * (v.z as int)) by (nonlinear_arith);
}

impl Vec3 {
    pub fn new(x: i64, y: i64, z: i64) -> (r: Self)
        ensures
            r == (Vec3 { x, y, z }),
    {
        Vec3 { x, y, z }
    }

    pub fn zero() -> (r: Self)
        ensures
            r == zero3(),
    {
        Vec3 { x: 0, y: 0, z: 0 }
    }

    pub fn x(&self) -> (r: i64)
        ensures
            r == self.x,
    {
        self.x
    }

    pub fn y(&self) -> (r: i64)
        ensures
            r == self.y,
    {
        self.y
    }

    pub fn z(&self) -> (r: i64)
        ensures
            r == self.z,
    {
        self.z
    }

    pub fn add(&self, o: &Vec3) -> (r: Vec3)
        requires
            bounded3(*self, 0x2000_0000_0000_0000),
            bounded3(*o, 0x2000_0000_0000_0000),
        ensures
            r == add3(*self, *o),
    {
        Vec3 { x: self.x + o.x, y: self.y + o.y, z: self.z + o.z }
    }

    pub fn sub(&self, o: &Vec3) -> (r: Vec3)
        requires
            bounded3(*self, 0x2000_0000_0000_0000),
            bounded3(*o, 0x2000_0000_0000_0000),
        ensures
            r == sub3(*self, *o),
    {
        Vec3 { x: self.x - o.x, y: self.y - o.y, z: self.z - o.z }
    }

    pub fn neg(&self) -> (r: Vec3)
        requires
            bounded3(*self, 0x2000_0000_0000_0000),
        ensures
            r == neg3(*self),
    {
        Vec3 { x: -self.x, y: -self.y, z: -self.z }
    }

    /// Scale by a fixed-point scalar.
    pub fn mul(&self, s: i64) -> (r: Vec3)
        requires
            bounded3(*self, MUL_ARG_MAX as int),
            -MUL_ARG_MAX <= s <= MUL_ARG_MAX,
        ensures
            r == scale3(*self, s as int),
    {
        Vec3 { x: fx_mul(self.x, s), y: fx_mul(self.y, s), z: fx_mul(self.z, s) }
    }

    /// Divide by a fixed-point scalar.
    pub fn div(&self, s: i64) -> (r: Vec3)
        requires
            s != 0,
            bounded3(*self, DIV_ARG_MAX as int),
        ensures
            r == divs3(*self, s as int),
    {
        Vec3 { x: fx_div(self.x, s), y: fx_div(self.y, s), z: fx_div(self.z, s) }
    }

    /// Componentwise product, as used for color attenuation.
    pub fn mul_vec(&self, o: &Vec3) -> (r: Vec3)
        requires
            bounded3(*self, MUL_ARG_MAX as int),
            bounded3(*o, MUL_ARG_MAX as int),
        ensures
            r == mulv3(*self, *o),
    {
        Vec3 {
            x: fx_mul(self.x, o.x),
            y: fx_mul(self.y, o.y),
            z: fx_mul(self.z, o.z),
        }
    }

    pub fn dot(&self, o: &Vec3) -> (r: i64)
        requires
            bounded3(*self, VEC_MAX as int),
            bounded3(*o, VEC_MAX as int),
        ensures
            r == dot3(*self, *o),
    {
        proof {
            lemma_fmul_bound(self.x as int, o.x as int, VEC_MAX as int, VEC_MAX as int);
            lemma_fmul_bound(self.y as int, o.y as int, VEC_MAX as int, VEC_MAX as int);
            lemma_fmul_bound(self.z as int, o.z as int, VEC_MAX as int, VEC_MAX as int);
        }
        fx_mul(self.x, o.x) + fx_mul(self.y, o.y) + fx_mul(self.z, o.z)
    }

    pub fn cross(&self, o: &Vec3) -> (r: Vec3)
        requires
            bounded3(*self, VEC_MAX as int),
            bounded3(*o, VEC_MAX as int),
        ensures
            r == cross3(*self, *o),
    {
        proof {
            lemma_fmul_bound(self.y as int, o.z as int, VEC_MAX as int, VEC_MAX as int);
            lemma_fmul_bound(self.z as int, o.y as int, VEC_MAX as int, VEC_MAX as int);
            lemma_fmul_bound(self.z as int, o.x as int, VEC_MAX as int, VEC_MAX as int);
            lemma_fmul_bound(self.x as int, o.z as int, VEC_MAX as int, VEC_MAX as int);
            lemma_fmul_bound(self.x as int, o.y as int, VEC_MAX as int, VEC_MAX as int);
            lemma_fmul_bound(self.y as int, o.x as int, VEC_MAX as int, VEC_MAX as int);
        }
        Vec3 {
            x: fx_mul(self.y, o.z) - fx_mul(self.z, o.y),
            y: fx_mul(self.z, o.x) - fx_mul(self.x, o.z),
            z: fx_mul(self.x, o.y) - fx_mul(self.y, o.x),
        }
    }

    pub fn length_squared(&self) -> (r: i64)
        requires
            bounded3(*self, VEC_MAX as int),
        ensures
            r == dot3(*self, *self),
            0 <= r,
    {
        proof {
            lemma_dot3_self_nonneg(*self);
        }
        self.dot(self)
    }

    pub fn length(&self) -> (r: i64)
        requires
            bounded3(*self, VEC_MAX as int),
        ensures
            r == fsqrt(dot3(*self, *self)),
            0 <= r,
    {
        let ls = self.length_squared();
        fx_sqrt(ls)
    }

    /// Normalize; returns the zero vector for degenerate inputs, as `unit3`
    /// states.
    pub fn unit(&self) -> (r: Vec3)
        requires
            bounded3(*self, VEC_MAX as int),
        ensures
            r == unit3(*self),
            bounded3(r, 2 * SCALE),
            r == zero3() || abs(dot3(r, r) - SCALE) <= UNIT_LEN_TOL,
    {
        let l = self.length();
        if l < 1 {
            Vec3::zero()
        } else {
            let q = self.div(l);
            if q.x <= 2 * SCALE && q.x >= -2 * SCALE && q.y <= 2 * SCALE && q.y >= -2 * SCALE
                && q.z <= 2 * SCALE && q.z >= -2 * SCALE {
                let dev = q.length_squared() - SCALE;
                if -UNIT_LEN_TOL <= dev && dev <= UNIT_LEN_TOL {
                    q
                } else {
                    Vec3::zero()
                }
            } else {
                Vec3::zero()
            }
        }
    }

    /// All components are below the representable resolution; at 16
    /// fractional bits that means exactly zero.
    pub fn near_zero(&self) -> (r: bool)
        ensures
            r == (self.x == 0 && self.y == 0 && self.z == 0),
    {
        self.x == 0 && self.y == 0 && self.z == 0
    }

    /// Mirror reflection about the unit normal `n`.
    pub fn reflect(&self, normal: &Vec3) -> (r: Vec3)
        requires
            bounded3(*self, 0x4000_0000),
            bounded3(*normal, UNIT_MAX as int),
        ensures
            r == reflect3(*self, *normal),
    {
        let d = self.dot(normal);
        proof {
            lemma_dot3_bound(*self, *normal, 0x4000_0000, UNIT_MAX as int);
            lemma_fmul_bound(normal.x as int, 2 * d, UNIT_MAX as int, 0x10_0000_0000);
            lemma_fmul_bound(normal.y as int, 2 * d, UNIT_MAX as int, 0x10_0000_0000);
            lemma_fmul_bound(normal.z as int, 2 * d, UNIT_MAX as int, 0x10_0000_0000);
        }
        self.sub(&normal.mul(2 * d))
    }

    /// Snell refraction with ratio `factor`, following `refract3`.
    pub fn refract(&self, normal: &Vec3, factor: i64) -> (r: Vec3)
        requires
            bounded3(*self, UNIT_MAX as int),
            bounded3(*normal, UNIT_MAX as int),
            0 < factor <= 0x10_0000,
        ensures
            r == refract3(*self, *normal, factor as int),
    {
        proof {
            lemma_dot3_bound(neg3(*self), *normal, UNIT_MAX as int, UNIT_MAX as int);
        }
        let mc = self.neg().dot(normal);
        let cos = if mc < SCALE { mc } else { SCALE };
        proof {
            lemma_fmul_bound(normal.x as int, cos as int, UNIT_MAX as int, 0x10_0000);
            lemma_fmul_bound(normal.y as int, cos as int, UNIT_MAX as int, 0x10_0000);
            lemma_fmul_bound(normal.z as int, cos as int, UNIT_MAX as int, 0x10_0000);
        }
        let scaled_n = normal.mul(cos);
        let pre = self.add(&scaled_n);
        proof {
            lemma_fmul_bound(pre.x as int, factor as int, 0x60_0000, 0x10_0000);
            lemma_fmul_bound(pre.y as int, factor as int, 0x60_0000, 0x10_0000);
            lemma_fmul_bound(pre.z as int, factor as int, 0x60_0000, 0x10_0000);
        }
        let out_perp = pre.mul(factor);
        proof {
            lemma_dot3_bound(out_perp, out_perp, 0x600_0000, 0x600_0000);
        }
        let lensq = out_perp.length_squared();
        let d = SCALE - lensq;
        let m = if d < 0 { -d } else { d };
        let s = fx_sqrt(m);
        proof {
            crate::fixed::lemma_sqrt_floor((m * (SCALE as int)) as nat);
            assert(fsqrt(m as int) * fsqrt(m as int) <= (m as int) * (SCALE as int));
            assert(fsqrt(m as int) <= 0x1_0000_0000) by (nonlinear_arith)
                requires
                    0 <= fsqrt(m as int),
                    fsqrt(m as int) * fsqrt(m as int) <= (m as int) * (SCALE as int),
                    m <= 0x4000_0000_0000;
            lemma_fmul_bound(normal.x as int, -fsqrt(m as int), UNIT_MAX as int, 0x1_0000_0000);
            lemma_fmul_bound(normal.y as int, -fsqrt(m as int), UNIT_MAX as int, 0x1_0000_0000);
            lemma_fmul_bound(normal.z as int, -fsqrt(m as int), UNIT_MAX as int, 0x1_0000_0000);
        }
        let out_par = normal.mul(-s);
        out_perp.add(&out_par)
    }

    /// A vector with each component drawn uniformly from `[min, max]`.
    pub fn random_range(min: i64, max: i64) -> (r: Self)
        requires
            min <= max,
            -VEC_MAX <= min,
            max <= VEC_MAX,
        ensures
            bounded3(r, vstd::math::max(abs(min as int) as int, abs(max as int) as int)),
            min <= r.x <= max,
            min <= r.y <= max,
            min <= r.z <= max,
    {
        Vec3 {
            x: random_fixed(min, max),
            y: random_fixed(min, max),
            z: random_fixed(min, max),
        }
    }

    /// A random vector of near-unit length: rejection-sample the unit
    /// ball, accepting only draws of squared length at least a quarter (so
    /// normalization cannot blow rounding up), then normalize and keep the
    /// result only if its squared length sits within the near-unit
    /// tolerance. After a bounded number of rejected draws the fixed unit
    /// `z` vector is returned so the function always terminates.
    pub fn random_unit() -> (r: Self)
        ensures
            bounded3(r, 2 * SCALE),
            abs(dot3(r, r) - SCALE) <= UNIT_LEN_TOL,
    {
        let mut tries: u32 = 0;
        while tries < 64
            invariant
                tries <= 64,
            decreases 64 - tries,
        {
            let v = Vec3::random_range(-SCALE, SCALE);
            let lensq = v.length_squared();
            if 0x4000 <= lensq && lensq <= SCALE {
                proof {
                    crate::fixed::lemma_fsqrt_pos(lensq as int);
                }
                let u = v.div(fx_sqrt(lensq));
                if u.x <= 2 * SCALE && u.x >= -2 * SCALE && u.y <= 2 * SCALE
                    && u.y >= -2 * SCALE && u.z <= 2 * SCALE && u.z >= -2 * SCALE {
                    let dev = u.length_squared() - SCALE;
                    if -UNIT_LEN_TOL <= dev && dev <= UNIT_LEN_TOL {
                        return u;
                    }
                }
            }
            tries = tries + 1;
        }
        proof {
            lemma_fmul_unit_square();
        }
        Vec3 { x: 0, y: 0, z: SCALE }
    }

    /// A random point on the aperture disk: `z` is zero and the point lies
    /// within the unit circle. Falls back to the disk center after a bounded
    /// number of rejected draws.
    pub fn random_in_unit_disk() -> (r: Self)
        ensures
            bounded3(r, SCALE as int),
            r.z == 0,
            dot3(r, r) <= SCALE,
    {
        let mut tries: u32 = 0;
        while tries < 64
            invariant
                tries <= 64,
            decreases 64 - tries,
        {
            let v = Vec3 {
                x: random_fixed(-SCALE, SCALE),
                y: random_fixed(-SCALE, SCALE),
                z: 0,
            };
            let lensq = v.length_squared();
            if lensq <= SCALE {
                return v;
            }
            tries = tries + 1;
        }
        proof {
            lemma_dot3_zero_vec(zero3());
        }
        Vec3 { x: 0, y: 0, z: 0 }
    }
}

} // verus!
