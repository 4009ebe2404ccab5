//! Signed 16.16 fixed-point scalar arithmetic.
//!
//! A scalar is an `i64` holding `SCALE` times its real value. Multiplication,
//! division and square root round toward zero, exactly as the spec functions
//! `fmul`, `fdiv` and `fsqrt` state; every executable operation is proved to
//! return precisely its spec counterpart.

use vstd::prelude::*;
use vstd::arithmetic::div_mod::{lemma_div_is_ordered, lemma_div_nonincreasing};
use vstd::math::abs;

verus! {

/// One whole unit: values carry 16 fractional bits.
pub const SCALE: i64 = 65536;

/// Largest magnitude `fx_mul` accepts for either factor.
pub const MUL_ARG_MAX: i64 = 0x40_0000_0000;

/// Largest magnitude `fx_div` accepts for the dividend.
pub const DIV_ARG_MAX: i64 = 0x4000_0000_0000;

/// Truncated (round-toward-zero) division, the semantics of machine
/// division on signed integers. Unspecified for `d == 0`.
pub open spec fn tdiv(x: int, d: int) -> int {
    let q = abs(x) as int / abs(d) as int;
    if (x < 0) <==> (d < 0) {
        q
    } else {
        -q
    }
}

/// Fixed-point product: the real product, rounded toward zero.
pub open spec fn fmul(a: int, b: int) -> int {
    tdiv(a * b, SCALE as int)
}

/// Fixed-point quotient: the real quotient, rounded toward zero.
pub open spec fn fdiv(a: int, b: int) -> int {
    tdiv(a * SCALE, b)
}

/// Integer square root, rounded down.
pub open spec fn sqrt_floor(n: nat) -> nat
    decreases n,
{
    if n == 0 {
        0
    } else {
        let p = sqrt_floor((n - 1) as nat);
        if (p + 1) * (p + 1) <= n {
            p + 1
        } else {
            p
        }
    }
}

/// Fixed-point square root of a nonnegative scalar, rounded down.
pub open spec fn fsqrt(x: int) -> int {
    sqrt_floor((x * SCALE) as nat) as int
}

/// `sqrt_floor(n)` is the largest integer whose square does not exceed `n`.
pub proof fn lemma_sqrt_floor(n: nat)
    ensures
        sqrt_floor(n) * sqrt_floor(n) <= n,
        n < (sqrt_floor(n) + 1) * (sqrt_floor(n) + 1),
    decreases n,
{
    if n > 0 {
        lemma_sqrt_floor((n - 1) as nat);
        let p = sqrt_floor((n - 1) as nat);
        assert(p * p <= n - 1);
        assert(n - 1 < (p + 1) * (p + 1));
        if (p + 1) * (p + 1) <= n {
            assert(sqrt_floor(n) == p + 1);
            assert(n <= (p + 1) * (p + 1));
            assert((p + 1) * (p + 1) < (p + 2) * (p + 2)) by (nonlinear_arith)
                requires p >= 0;
            assert(n < (sqrt_floor(n) + 1) * (sqrt_floor(n) + 1));
        } else {
            assert(sqrt_floor(n) == p);
            assert(n < (sqrt_floor(n) + 1) * (sqrt_floor(n) + 1));
        }
    } else {
        assert(sqrt_floor(n) == 0);
        assert(n < (sqrt_floor(n) + 1) * (sqrt_floor(n) + 1)) by (nonlinear_arith)
            requires n == 0 && sqrt_floor(n) == 0;
    }
}

/// No two integers both satisfy the square-root bracketing, so any witness
/// equals `sqrt_floor`.
pub proof fn lemma_sqrt_unique(n: nat, r: nat)
    requires
        r * r <= n,
        n < (r + 1) * (r + 1),
    ensures
        r == sqrt_floor(n),
{
    let s = sqrt_floor(n);
    lemma_sqrt_floor(n);
    if r < s {
        assert((r + 1) * (r + 1) <= s * s) by (nonlinear_arith)
            requires r + 1 <= s;
    }
    if s < r {
        assert((s + 1) * (s + 1) <= r * r) by (nonlinear_arith)
            requires s + 1 <= r;
    }
}

/// The magnitude of a truncated quotient is the floor-divided magnitude.
pub proof fn lemma_tdiv_abs(x: int, d: int)
    requires
        d != 0,
    ensures
        abs(tdiv(x, d)) == abs(x) as int / abs(d) as int,
        abs(tdiv(x, d)) <= abs(x),
{
    lemma_div_nonincreasing(abs(x) as int, abs(d) as int);
}

/// A magnitude bound on the dividend carries over to a truncated quotient.
pub proof fn lemma_tdiv_bound(x: int, d: int, m: int)
    requires
        d != 0,
        abs(x) <= m,
    ensures
        abs(tdiv(x, d)) <= m / abs(d) as int,
        abs(tdiv(x, d)) <= m,
{
    lemma_tdiv_abs(x, d);
    lemma_div_is_ordered(abs(x) as int, m, abs(d) as int);
    lemma_div_nonincreasing(m, abs(d) as int);
}

/// A magnitude bound on both factors carries over to a fixed-point product.
pub proof fn lemma_fmul_bound(a: int, b: int, ba: int, bb: int)
    requires
        abs(a) <= ba,
        abs(b) <= bb,
    ensures
        abs(fmul(a, b)) <= (ba * bb) / (SCALE as int),
        abs(fmul(a, b)) <= ba * bb,
{
    assert(abs(a * b) <= ba * bb) by (nonlinear_arith)
        requires abs(a) <= ba, abs(b) <= bb;
    lemma_tdiv_bound(a * b, SCALE as int, ba * bb);
}

/// What truncated division discards: `x - d * tdiv(x, d)`.
pub open spec fn trem(x: int, d: int) -> int {
    x - d * tdiv(x, d)
}

/// The discarded part of a truncated division is smaller than the divisor
/// and carries the dividend's sign.
pub proof fn lemma_trem_bound(x: int, d: int)
    requires
        1 <= d,
    ensures
        abs(trem(x, d)) <= d - 1,
        0 <= x ==> 0 <= trem(x, d),
        x <= 0 ==> trem(x, d) <= 0,
{
    if x >= 0 {
        vstd::arithmetic::div_mod::lemma_fundamental_div_mod(x, d);
        vstd::arithmetic::div_mod::lemma_mod_bound(x, d);
    } else {
        vstd::arithmetic::div_mod::lemma_fundamental_div_mod(-x, d);
        vstd::arithmetic::div_mod::lemma_mod_bound(-x, d);
        assert(d * tdiv(x, d) == -(d * ((-x) / d))) by (nonlinear_arith)
            requires tdiv(x, d) == -((-x) / d);
    }
}

/// Division by a scalar of at least one whole unit does not grow the
/// magnitude.
pub proof fn lemma_fdiv_bound(a: int, b: int, m: int)
    requires
        abs(a) <= m,
        SCALE <= abs(b),
        0 <= m,
    ensures
        abs(fdiv(a, b)) <= m,
{
    lemma_tdiv_abs(a * SCALE, b);
    assert(abs(a * SCALE) == abs(a) * (SCALE as int)) by (nonlinear_arith);
    assert(abs(a) * (SCALE as int) <= m * abs(b) as int) by (nonlinear_arith)
        requires
            abs(a) <= m,
            SCALE <= abs(b),
            0 <= m;
    lemma_div_is_ordered(abs(a) * (SCALE as int), m * abs(b) as int, abs(b) as int);
    vstd::arithmetic::div_mod::lemma_div_by_multiple(m, abs(b) as int);
}

/// A nonnegative dividend gives a nonnegative truncated quotient.
pub proof fn lemma_tdiv_nonneg(x: int, d: int)
    requires
        0 <= x,
        1 <= d,
    ensures
        0 <= tdiv(x, d),
{
    if x > 0 {
        vstd::arithmetic::div_mod::lemma_div_pos_is_pos(x, d);
    } else {
        vstd::arithmetic::div_mod::lemma_div_of0(d);
    }
}

/// Zero divided by anything is zero.
pub proof fn lemma_tdiv_zero(d: int)
    requires
        d != 0,
    ensures
        tdiv(0, d) == 0,
{
    vstd::arithmetic::div_mod::lemma_div_of0(abs(d) as int);
}

/// The square root of at least one whole raw unit is positive.
pub proof fn lemma_fsqrt_pos(x: int)
    requires
        1 <= x,
    ensures
        1 <= fsqrt(x),
{
    let n = x * (SCALE as int);
    assert(x * 65536 >= 65536) by (nonlinear_arith)
        requires 1 <= x;
    lemma_sqrt_floor(n as nat);
    let s = sqrt_floor(n as nat);
    if s == 0 {
        assert((s + 1) * (s + 1) == 1) by (nonlinear_arith)
            requires s == 0;
    }
}

/// Negating the dividend negates a truncated quotient.
pub proof fn lemma_tdiv_neg(x: int, d: int)
    requires
        d != 0,
    ensures
        tdiv(-x, d) == -tdiv(x, d),
{
}

/// Truncated division by a positive divisor is monotone in the dividend.
pub proof fn lemma_tdiv_mono(x: int, y: int, d: int)
    requires
        x <= y,
        d >= 1,
    ensures
        tdiv(x, d) <= tdiv(y, d),
{
    if x >= 0 {
        lemma_div_is_ordered(x, y, d);
    } else if y < 0 {
        lemma_div_is_ordered(-y, -x, d);
    } else {
        lemma_div_nonincreasing(-x, d);
        lemma_div_nonincreasing(y, d);
        assert(abs(x) as int / d >= 0) by {
            vstd::arithmetic::div_mod::lemma_div_pos_is_pos(abs(x) as int, d);
        }
        assert(abs(y) as int / d >= 0) by {
            vstd::arithmetic::div_mod::lemma_div_pos_is_pos(abs(y) as int, d);
        }
    }
}

/// Truncated division of a 128-bit value by a positive divisor.
fn tdiv_i128(a: i128, d: i128) -> (r: i128)
    requires
        1 <= d,
        -0x4000_0000_0000_0000_0000_0000_0000_0000 < a,
    ensures
        r as int == tdiv(a as int, d as int),
        abs(r as int) <= abs(a as int),
{
    proof {
        lemma_tdiv_abs(a as int, d as int);
    }
    if a >= 0 {
        let q: u128 = (a as u128) / (d as u128);
        q as i128
    } else {
        let m: i128 = -a;
        let q: u128 = (m as u128) / (d as u128);
        -(q as i128)
    }
}

/// Fixed-point multiplication; exactly `fmul` of its arguments.
pub fn fx_mul(a: i64, b: i64) -> (r: i64)
    requires
        -MUL_ARG_MAX <= a <= MUL_ARG_MAX,
        -MUL_ARG_MAX <= b <= MUL_ARG_MAX,
    ensures
        r == fmul(a as int, b as int),
        abs(r as int) * (SCALE as int) <= abs((a as int) * (b as int)),
{
    proof {
        assert(abs((a as int) * (b as int)) <= (MUL_ARG_MAX as int) * (MUL_ARG_MAX as int))
            by (nonlinear_arith)
            requires
                -MUL_ARG_MAX <= a <= MUL_ARG_MAX,
                -MUL_ARG_MAX <= b <= MUL_ARG_MAX;
    }
    let p: i128 = (a as i128) * (b as i128);
    let q: i128 = tdiv_i128(p, SCALE as i128);
    proof {
        lemma_tdiv_abs(p as int, SCALE as int);
        lemma_tdiv_bound(p as int, SCALE as int, abs(p as int) as int);
        vstd::arithmetic::div_mod::lemma_fundamental_div_mod(abs(p as int) as int, SCALE as int);
    }
    q as i64
}

/// Fixed-point division; exactly `fdiv` of its arguments.
pub fn fx_div(a: i64, b: i64) -> (r: i64)
    requires
        b != 0,
        -DIV_ARG_MAX <= a <= DIV_ARG_MAX,
    ensures
        r == fdiv(a as int, b as int),
{
    proof {
        assert(abs((a as int) * (SCALE as int)) <= (DIV_ARG_MAX as int) * (SCALE as int))
            by (nonlinear_arith)
            requires -DIV_ARG_MAX <= a <= DIV_ARG_MAX;
    }
    let p: i128 = (a as i128) * (SCALE as i128);
    if b > 0 {
        let q = tdiv_i128(p, b as i128);
        q as i64
    } else {
        proof {
            lemma_tdiv_neg(p as int, -(b as int));
            assert(tdiv(p as int, b as int) == -tdiv(p as int, -(b as int)));
        }
        let q = tdiv_i128(p, -(b as i128));
        (-q) as i64
    }
}

/// Truncated integer division of fixed-point by a plain positive integer
/// (used to average accumulated samples).
pub fn div_int(a: i64, d: i64) -> (r: i64)
    requires
        1 <= d,
    ensures
        r == tdiv(a as int, d as int),
{
    let q = tdiv_i128(a as i128, d as i128);
    q as i64
}

/// Integer square root of a 128-bit value, rounded down.
fn isqrt_u128(n: u128) -> (r: u128)
    requires
        n < 0x1_0000_0000_0000_0000_0000_0000,
    ensures
        (r as int) * (r as int) <= n as int,
        (n as int) < (r as int + 1) * (r as int + 1),
{
    let mut lo: u128 = 0;
    let mut hi: u128 = 0x1_0000_0000_0000;
    while lo + 1 < hi
        invariant
            lo < hi <= 0x1_0000_0000_0000,
            (lo as int) * (lo as int) <= n as int,
            (n as int) < (hi as int) * (hi as int),
        decreases hi - lo,
    {
        let mid: u128 = lo + (hi - lo) / 2;
        proof {
            assert((mid as int) * (mid as int) < 0x1_0000_0000_0000_0000_0000_0000)
                by (nonlinear_arith)
                requires mid < 0x1_0000_0000_0000;
        }
        if mid * mid <= n {
            lo = mid;
        } else {
            hi = mid;
        }
    }
    lo
}

/// Fixed-point square root; exactly `fsqrt` of its argument.
pub fn fx_sqrt(x: i64) -> (r: i64)
    requires
        0 <= x,
    ensures
        r == fsqrt(x as int),
        0 <= r,
{
    proof {
        assert((x as int) * (SCALE as int) < 0x1_0000_0000_0000_0000_0000_0000)
            by (nonlinear_arith)
            requires 0 <= x <= 0x7fff_ffff_ffff_ffff;
    }
    let n: u128 = (x as u128) * (SCALE as u128);
    let s = isqrt_u128(n);
    proof {
        lemma_sqrt_unique(n as nat, s as nat);
        assert(s < 0x1_0000_0000_0000) by (nonlinear_arith)
            requires
                (s as int) * (s as int) <= n as int,
                n < 0x1_0000_0000_0000_0000_0000_0000;
    }
    s as i64
}

} // verus!
