//! Fixed-point scalar arithmetic.
//!
//! A scalar is an `i64` holding a number of 1/65536 units, so `65536` stands
//! for 1.0. Results of the saturating operations are kept inside
//! `[-FMAX, FMAX]`; every operation's contract states its value exactly,
//! including the truncation of division and the saturation bound.

use vstd::prelude::*;
use vstd::arithmetic::div_mod::lemma_div_is_ordered;

verus! {

/// Representation units per 1.0.
pub const ONE: i64 = 65536;

/// Representation units per 0.5.
pub const HALF: i64 = 32768;

/// Shadow bias: offset applied to secondary-ray origins, about 1e-3.
pub const EPS: i64 = 64;

/// Saturation bound of the scalar operations (2^60).
pub const FMAX: i64 = 0x1000_0000_0000_0000;

/// Far limit: hit distances beyond this bound count as no hit (2^40).
pub const DMAX: i64 = 0x100_0000_0000;

/// World box: point coordinates are clamped into [-PMAX, PMAX] (2^44).
pub const PMAX: i64 = 0x1000_0000_0000;

/// Bound on the coordinates of scene data: centers, bounds, lights (2^31).
pub const CMAX: i64 = 0x8000_0000;

/// Truncating division by a positive divisor (rounds toward zero).
pub open spec fn tdiv(a: int, d: int) -> int {
    if a >= 0 {
        a / d
    } else {
        -((-a) / d)
    }
}

/// Truncating division by a nonzero divisor of either sign.
pub open spec fn tdivs(a: int, b: int) -> int {
    if b >= 0 {
        tdiv(a, b)
    } else {
        tdiv(-a, -b)
    }
}

/// Saturation into [-FMAX, FMAX].
pub open spec fn sat(x: int) -> int {
    if x > FMAX {
        FMAX as int
    } else if x < -FMAX {
        -FMAX as int
    } else {
        x
    }
}

/// Saturation into the world box [-PMAX, PMAX].
pub open spec fn satp(x: int) -> int {
    if x > PMAX {
        PMAX as int
    } else if x < -PMAX {
        -PMAX as int
    } else {
        x
    }
}

/// Clamp into [lo, hi].
pub open spec fn clamp_s(x: int, lo: int, hi: int) -> int {
    if x < lo {
        lo
    } else if x > hi {
        hi
    } else {
        x
    }
}

/// The larger of x and 0.
pub open spec fn max0(x: int) -> int {
    if x > 0 {
        x
    } else {
        0
    }
}

/// Fixed-point product: a*b scaled back down, truncated, saturated.
pub open spec fn fx_mul_s(a: int, b: int) -> int {
    sat(tdiv(a * b, ONE as int))
}

/// Fixed-point quotient: a scaled up, divided by b, truncated, saturated.
pub open spec fn fx_div_s(a: int, b: int) -> int {
    sat(tdivs(a * ONE, b))
}

/// Saturating sum.
pub open spec fn add_sat(a: int, b: int) -> int {
    sat(a + b)
}

/// Saturating difference.
pub open spec fn sub_sat(a: int, b: int) -> int {
    sat(a - b)
}

/// Integer square root: the largest r with r*r <= n.
pub open spec fn isqrt_s(n: nat) -> nat
    decreases n,
{
    if n == 0 {
        0
    } else {
        let r = isqrt_s((n - 1) as nat);
        if (r + 1) * (r + 1) <= n {
            r + 1
        } else {
            r
        }
    }
}

/// Square root of a nonnegative fixed-point number, in fixed-point scale.
pub open spec fn sqrt_fx_s(k: int) -> int {
    isqrt_s((k * ONE) as nat) as int
}

/// Fixed-point power by repeated multiplication from the left.
pub open spec fn fx_pow_s(b: int, e: nat) -> int
    decreases e,
{
    if e == 0 {
        ONE as int
    } else {
        fx_mul_s(fx_pow_s(b, (e - 1) as nat), b)
    }
}

pub proof fn lemma_isqrt_props(n: nat)
    ensures
        isqrt_s(n) * isqrt_s(n) <= n,
        n < (isqrt_s(n) + 1) * (isqrt_s(n) + 1),
    decreases n,
{
    reveal_with_fuel(isqrt_s, 2);
    if n > 0 {
        lemma_isqrt_props((n - 1) as nat);
        let r = isqrt_s((n - 1) as nat);
        if (r + 1) * (r + 1) <= n {
            assert(isqrt_s(n) == r + 1);
            assert(n - 1 < (r + 1) * (r + 1));
            assert(n == (r + 1) * (r + 1));
            assert((r + 1) * (r + 1) < (r + 2) * (r + 2)) by (nonlinear_arith)
                requires
                    r >= 0,
            ;
        } else {
            assert(isqrt_s(n) == r);
            assert(r * r <= n - 1);
        }
        assert(isqrt_s(n) * isqrt_s(n) <= n);
        assert(n < (isqrt_s(n) + 1) * (isqrt_s(n) + 1));
    } else {
        assert(isqrt_s(n) == 0);
        let q = isqrt_s(n);
        assert(n < (q + 1) * (q + 1)) by (nonlinear_arith)
            requires
                q == 0,
                n == 0,
        ;
    }
}

pub proof fn lemma_isqrt_unique(n: nat, r: nat)
    requires
        r * r <= n,
        n < (r + 1) * (r + 1),
    ensures
        r == isqrt_s(n),
{
    lemma_isqrt_props(n);
    let q = isqrt_s(n);
    assert(q == r) by (nonlinear_arith)
        requires
            r * r <= n,
            n < (r + 1) * (r + 1),
            q * q <= n,
            n < (q + 1) * (q + 1),
            r >= 0,
            q >= 0,
    ;
}

/// Monotonicity of the integer square root.
pub proof fn lemma_isqrt_ordered(m: nat, n: nat)
    requires
        m <= n,
    ensures
        isqrt_s(m) <= isqrt_s(n),
{
    lemma_isqrt_props(m);
    lemma_isqrt_props(n);
    let a = isqrt_s(m);
    let b = isqrt_s(n);
    assert(a <= b) by (nonlinear_arith)
        requires
            a * a <= m,
            n < (b + 1) * (b + 1),
            m <= n,
            a >= 0,
            b >= 0,
    ;
}

/// Bound on a product from bounds on its factors.
pub proof fn lemma_mul_bounds(a: int, b: int, aa: int, bb: int)
    requires
        -aa <= a <= aa,
        -bb <= b <= bb,
    ensures
        -(aa * bb) <= a * b <= aa * bb,
{
    assert(-(aa * bb) <= a * b <= aa * bb) by (nonlinear_arith)
        requires
            -aa <= a <= aa,
            -bb <= b <= bb,
    ;
}

/// Bound on a truncating quotient from a bound on the dividend.
pub proof fn lemma_tdiv_bounds(a: int, d: int, aa: int)
    requires
        d > 0,
        0 <= aa,
        -aa <= a <= aa,
    ensures
        -(aa / d) <= tdiv(a, d) <= aa / d,
        -aa <= tdiv(a, d) <= aa,
{
    if a >= 0 {
        lemma_div_is_ordered(a, aa, d);
        assert(a / d >= 0) by (nonlinear_arith)
            requires
                a >= 0,
                d > 0,
        ;
    } else {
        lemma_div_is_ordered(-a, aa, d);
        assert((-a) / d >= 0) by (nonlinear_arith)
            requires
                -a >= 0,
                d > 0,
        ;
    }
    assert(aa / d <= aa) by (nonlinear_arith)
        requires
            d > 0,
            aa >= 0,
    ;
}

/// A square is never negative.
pub proof fn lemma_square_nonneg(a: int)
    ensures
        a * a >= 0,
{
    assert(a * a >= 0) by (nonlinear_arith);
}

fn sat_i128(x: i128) -> (r: i64)
    ensures
        r as int == sat(x as int),
{
    if x > 0x1000_0000_0000_0000i128 {
        0x1000_0000_0000_0000i64
    } else if x < -0x1000_0000_0000_0000i128 {
        -0x1000_0000_0000_0000i64
    } else {
        x as i64
    }
}

fn satp_i128(x: i128) -> (r: i64)
    ensures
        r as int == satp(x as int),
{
    if x > 0x1000_0000_0000i128 {
        0x1000_0000_0000i64
    } else if x < -0x1000_0000_0000i128 {
        -0x1000_0000_0000i64
    } else {
        x as i64
    }
}

/// Truncating division of an i128 by a positive divisor.
pub fn tdiv_i128(a: i128, d: i128) -> (r: i128)
    requires
        d > 0,
        a > -0x8000_0000_0000_0000_0000_0000_0000_0000,
    ensures
        r == tdiv(a as int, d as int),
{
    a / d
}

/// Fixed-point multiplication, exact up to truncation and saturation.
pub fn fx_mul(a: i64, b: i64) -> (r: i64)
    ensures
        r as int == fx_mul_s(a as int, b as int),
{
    proof {
        lemma_mul_bounds(a as int, b as int, 0x8000_0000_0000_0000, 0x8000_0000_0000_0000);
    }
    let p: i128 = (a as i128) * (b as i128);
    let q: i128 = tdiv_i128(p, 65536);
    sat_i128(q)
}

/// Fixed-point division by a nonzero divisor.
pub fn fx_div(a: i64, b: i64) -> (r: i64)
    requires
        b != 0,
    ensures
        r as int == fx_div_s(a as int, b as int),
{
    let mut num: i128 = (a as i128) * 65536;
    let mut den: i128 = b as i128;
    if den < 0 {
        num = -num;
        den = -den;
    }
    let q: i128 = tdiv_i128(num, den);
    sat_i128(q)
}

/// Saturating addition.
pub fn fx_add(a: i64, b: i64) -> (r: i64)
    ensures
        r as int == add_sat(a as int, b as int),
{
    sat_i128((a as i128) + (b as i128))
}

/// Saturating subtraction.
pub fn fx_sub(a: i64, b: i64) -> (r: i64)
    ensures
        r as int == sub_sat(a as int, b as int),
{
    sat_i128((a as i128) - (b as i128))
}

/// Clamp a point coordinate into the world box.
pub fn clamp_point(x: i128) -> (r: i64)
    ensures
        r as int == satp(x as int),
{
    satp_i128(x)
}

/// Fixed-point power by repeated multiplication.
pub fn fx_pow(b: i64, e: u32) -> (r: i64)
    ensures
        r as int == fx_pow_s(b as int, e as nat),
{
    let mut acc: i64 = ONE;
    let mut i: u32 = 0;
    while i < e
        invariant
            i <= e,
            acc as int == fx_pow_s(b as int, i as nat),
        decreases e - i,
    {
        acc = fx_mul(acc, b);
        i = i + 1;
        proof {
            assert(fx_pow_s(b as int, i as nat) == fx_mul_s(
                fx_pow_s(b as int, (i - 1) as nat),
                b as int,
            ));
        }
    }
    acc
}

/// Integer square root by binary search.
pub fn isqrt(n: u128) -> (r: u128)
    ensures
        r * r <= n,
        n < (r + 1) * (r + 1),
        r as nat == isqrt_s(n as nat),
        r < 0x1_0000_0000_0000_0000,
{
    let mut lo: u128 = 0;
    let mut hi: u128 = 0x1_0000_0000_0000_0000;
    proof {
        assert(n < hi * hi) by (nonlinear_arith)
            requires
                n <= 0xffff_ffff_ffff_ffff_ffff_ffff_ffff_ffff,
                hi == 0x1_0000_0000_0000_0000,
        ;
    }
    while lo + 1 < hi
        invariant
            lo < hi,
            hi <= 0x1_0000_0000_0000_0000,
            lo * lo <= n,
            n < hi * hi,
        decreases hi - lo,
    {
        let mid: u128 = lo + (hi - lo) / 2;
        proof {
            assert(mid * mid <= 0xffff_ffff_ffff_ffff_ffff_ffff_ffff_ffff) by (nonlinear_arith)
                requires
                    mid < 0x1_0000_0000_0000_0000,
            ;
        }
        if mid * mid <= n {
            lo = mid;
        } else {
            hi = mid;
        }
    }
    proof {
        lemma_isqrt_unique(n as nat, lo as nat);
    }
    lo
}

} // verus!
