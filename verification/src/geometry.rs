//! Vector algebra and the ray abstraction over fixed-point scalars.

use vstd::prelude::*;
use vstd::arithmetic::div_mod::{lemma_div_by_multiple, lemma_div_is_ordered,
    lemma_div_is_ordered_by_denominator};
use crate::fixed::{ONE, HALF, FMAX, PMAX, tdiv, sat, satp, clamp_s, fx_mul_s, fx_div_s,
    add_sat, sub_sat, isqrt_s, sqrt_fx_s, fx_mul, fx_div, fx_add, fx_sub, isqrt, clamp_point,
    lemma_mul_bounds, lemma_tdiv_bounds, lemma_square_nonneg, lemma_isqrt_ordered,
    lemma_isqrt_props};

verus! {

/// The mathematical value of a vector: three unbounded integers, each a
/// number of 1/65536 units.
pub ghost struct V3 {
    pub x: int,
    pub y: int,
    pub z: int,
}

/// All components within the scalar saturation bound.
pub open spec fn v3_wf(a: V3) -> bool {
    &&& -FMAX <= a.x <= FMAX
    &&& -FMAX <= a.y <= FMAX
    &&& -FMAX <= a.z <= FMAX
}

/// All components within [-b, b].
pub open spec fn v3_bounded(a: V3, b: int) -> bool {
    &&& -b <= a.x <= b
    &&& -b <= a.y <= b
    &&& -b <= a.z <= b
}

pub open spec fn v3_is_zero(a: V3) -> bool {
    a.x == 0 && a.y == 0 && a.z == 0
}

/// Saturating component-wise sum.
pub open spec fn v3_add(a: V3, b: V3) -> V3 {
    V3 { x: add_sat(a.x, b.x), y: add_sat(a.y, b.y), z: add_sat(a.z, b.z) }
}

/// Saturating component-wise difference.
pub open spec fn v3_sub(a: V3, b: V3) -> V3 {
    V3 { x: sub_sat(a.x, b.x), y: sub_sat(a.y, b.y), z: sub_sat(a.z, b.z) }
}

/// Component-wise negation.
pub open spec fn v3_neg(a: V3) -> V3 {
    V3 { x: -a.x, y: -a.y, z: -a.z }
}

/// Scaling by a fixed-point scalar.
pub open spec fn v3_scale(a: V3, s: int) -> V3 {
    V3 { x: fx_mul_s(a.x, s), y: fx_mul_s(a.y, s), z: fx_mul_s(a.z, s) }
}

/// Dot product: the raw product sum scaled back down once.
pub open spec fn v3_dot(a: V3, b: V3) -> int {
    sat(tdiv(a.x * b.x + a.y * b.y + a.z * b.z, ONE as int))
}

/// Euclidean length. The raw sum of squares carries scale ONE * ONE, so its
/// integer square root is already a fixed-point number.
pub open spec fn v3_norm(a: V3) -> int {
    sat(isqrt_s((a.x * a.x + a.y * a.y + a.z * a.z) as nat) as int)
}

/// Division of every component by the norm.
pub open spec fn v3_normalize(a: V3) -> V3 {
    let n = v3_norm(a);
    V3 { x: fx_div_s(a.x, n), y: fx_div_s(a.y, n), z: fx_div_s(a.z, n) }
}

/// Reflection about a normal: v - n * (2 * dot(v, n)).
pub open spec fn v3_reflect(v: V3, n: V3) -> V3 {
    let d2 = add_sat(v3_dot(v, n), v3_dot(v, n));
    v3_sub(v, v3_scale(n, d2))
}

/// Refraction by Snell's law. `None` means total internal reflection:
/// no transmitted ray.
pub open spec fn v3_refract(v: V3, n: V3, ior: int) -> Option<V3> {
    let cosi0 = clamp_s(v3_dot(v, n), -ONE as int, ONE as int);
    let entering = cosi0 < 0;
    let cosi = if entering { -cosi0 } else { cosi0 };
    let etai = if entering { ONE as int } else { ior };
    let etat = if entering { ior } else { ONE as int };
    let nn = if entering { n } else { v3_neg(n) };
    let eta = fx_div_s(etai, etat);
    let k = sub_sat(ONE as int, fx_mul_s(fx_mul_s(eta, eta), sub_sat(ONE as int, fx_mul_s(cosi, cosi))));
    if k < 0 {
        None
    } else {
        Some(v3_add(v3_scale(v, eta), v3_scale(nn, sub_sat(fx_mul_s(eta, cosi), sqrt_fx_s(k)))))
    }
}

/// The point reached by walking distance t from o along d, with every
/// coordinate clamped into the world box.
pub open spec fn v3_extend(o: V3, d: V3, t: int) -> V3 {
    V3 {
        x: satp(o.x + tdiv(d.x * t, ONE as int)),
        y: satp(o.y + tdiv(d.y * t, ONE as int)),
        z: satp(o.z + tdiv(d.z * t, ONE as int)),
    }
}

/// A three-dimensional vector of fixed-point components.
#[derive(Clone, Copy)]
pub struct Vector {
    pub x: i64,
    pub y: i64,
    pub z: i64,
}

impl View for Vector {
    type V = V3;

    open spec fn view(&self) -> V3 {
        V3 { x: self.x as int, y: self.y as int, z: self.z as int }
    }
}

impl Vector {
    pub open spec fn wf(self) -> bool {
        v3_wf(self@)
    }

    pub fn is_zero(&self) -> (r: bool)
        ensures
            r == v3_is_zero(self@),
    {
        self.x == 0 && self.y == 0 && self.z == 0
    }

    /// Component-wise saturating sum.
    pub fn add(&self, other: &Vector) -> (r: Vector)
        ensures
            r@ == v3_add(self@, other@),
            r.wf(),
    {
        Vector {
            x: fx_add(self.x, other.x),
            y: fx_add(self.y, other.y),
            z: fx_add(self.z, other.z),
        }
    }

    /// Component-wise saturating difference.
    pub fn sub(&self, other: &Vector) -> (r: Vector)
        ensures
            r@ == v3_sub(self@, other@),
            r.wf(),
    {
        Vector {
            x: fx_sub(self.x, other.x),
            y: fx_sub(self.y, other.y),
            z: fx_sub(self.z, other.z),
        }
    }

    /// Scaling by a fixed-point scalar.
    pub fn scale(&self, s: i64) -> (r: Vector)
        ensures
            r@ == v3_scale(self@, s as int),
            r.wf(),
    {
        Vector { x: fx_mul(self.x, s), y: fx_mul(self.y, s), z: fx_mul(self.z, s) }
    }

    pub fn neg(&self) -> (r: Vector)
        requires
            self.wf(),
        ensures
            r@ == v3_neg(self@),
            r.wf(),
    {
        Vector { x: -self.x, y: -self.y, z: -self.z }
    }

    pub fn dot(&self, other: &Vector) -> (r: i64)
        requires
            self.wf(),
            other.wf(),
        ensures
            r as int == v3_dot(self@, other@),
    {
        proof {
            lemma_mul_bounds(self.x as int, other.x as int, FMAX as int, FMAX as int);
            lemma_mul_bounds(self.y as int, other.y as int, FMAX as int, FMAX as int);
            lemma_mul_bounds(self.z as int, other.z as int, FMAX as int, FMAX as int);
        }
        let px: i128 = (self.x as i128) * (other.x as i128);
        let py: i128 = (self.y as i128) * (other.y as i128);
        let pz: i128 = (self.z as i128) * (other.z as i128);
        let s: i128 = px + py + pz;
        let q: i128 = if s >= 0 {
            s / 65536
        } else {
            -((-s) / 65536)
        };
        if q > 0x1000_0000_0000_0000i128 {
            0x1000_0000_0000_0000i64
        } else if q < -0x1000_0000_0000_0000i128 {
            -0x1000_0000_0000_0000i64
        } else {
            q as i64
        }
    }

    /// Norm (length) of the vector.
    pub fn norm(&self) -> (r: i64)
        requires
            self.wf(),
        ensures
            r as int == v3_norm(self@),
            0 <= r <= FMAX,
    {
        proof {
            lemma_mul_bounds(self.x as int, self.x as int, FMAX as int, FMAX as int);
            lemma_mul_bounds(self.y as int, self.y as int, FMAX as int, FMAX as int);
            lemma_mul_bounds(self.z as int, self.z as int, FMAX as int, FMAX as int);
            lemma_square_nonneg(self.x as int);
            lemma_square_nonneg(self.y as int);
            lemma_square_nonneg(self.z as int);
        }
        let px: i128 = (self.x as i128) * (self.x as i128);
        let py: i128 = (self.y as i128) * (self.y as i128);
        let pz: i128 = (self.z as i128) * (self.z as i128);
        let s: i128 = px + py + pz;
        let r: u128 = isqrt(s as u128);
        if r > 0x1000_0000_0000_0000u128 {
            0x1000_0000_0000_0000i64
        } else {
            r as i64
        }
    }

    /// Division by the norm. The zero vector has no direction and is
    /// excluded; the result always has components within [-ONE, ONE]
    /// and is itself nonzero.
    pub fn normalize(&self) -> (r: Vector)
        requires
            self.wf(),
            !v3_is_zero(self@),
        ensures
            r@ == v3_normalize(self@),
            v3_bounded(r@, ONE as int),
            !v3_is_zero(r@),
            r.wf(),
    {
        let n = self.norm();
        proof {
            lemma_norm_positive(self@);
            lemma_normalize_bounds(self@);
        }
        Vector { x: fx_div(self.x, n), y: fx_div(self.y, n), z: fx_div(self.z, n) }
    }

    /// Reflection of self about the given normal.
    pub fn reflect(&self, normal: Vector) -> (r: Vector)
        requires
            self.wf(),
            normal.wf(),
        ensures
            r@ == v3_reflect(self@, normal@),
            r.wf(),
    {
        let d = self.dot(&normal);
        let d2 = fx_add(d, d);
        self.sub(&normal.scale(d2))
    }

    /// Refraction of self crossing a boundary with the given unit normal and
    /// relative refractive index. `None` means total internal reflection.
    pub fn refract(&self, normal: Vector, refractive_index: i64) -> (r: Option<Vector>)
        requires
            self.wf(),
            normal.wf(),
            refractive_index >= 1,
        ensures
            match r {
                Some(v) => v3_refract(self@, normal@, refractive_index as int) == Some(v@) && v.wf(),
                None => v3_refract(self@, normal@, refractive_index as int) is None,
            },
    {
        let d = self.dot(&normal);
        let cosi0: i64 = if d > ONE {
            ONE
        } else if d < -ONE {
            -ONE
        } else {
            d
        };
        let entering = cosi0 < 0;
        let cosi: i64 = if entering {
            -cosi0
        } else {
            cosi0
        };
        let etai: i64 = if entering {
            ONE
        } else {
            refractive_index
        };
        let etat: i64 = if entering {
            refractive_index
        } else {
            ONE
        };
        let nn: Vector = if entering {
            normal
        } else {
            normal.neg()
        };
        let eta = fx_div(etai, etat);
        let k = fx_sub(ONE, fx_mul(fx_mul(eta, eta), fx_sub(ONE, fx_mul(cosi, cosi))));
        if k < 0 {
            None
        } else {
            let srk = sqrt_fx(k);
            Some(self.scale(eta).add(&nn.scale(fx_sub(fx_mul(eta, cosi), srk))))
        }
    }
}

/// Square root of a nonnegative fixed-point number.
pub fn sqrt_fx(k: i64) -> (r: i64)
    requires
        0 <= k,
    ensures
        r as int == sqrt_fx_s(k as int),
        0 <= r,
{
    let n: u128 = (k as u128) * 65536;
    let r = isqrt(n);
    proof {
        assert(r < 0x1_0000_0000_0000) by (nonlinear_arith)
            requires
                r * r <= n,
                n < 0x1_0000_0000_0000_0000_0000_0000,
        ;
    }
    r as i64
}

/// For a nonzero vector the norm is at least one representation unit.
pub proof fn lemma_norm_positive(a: V3)
    requires
        v3_wf(a),
        !v3_is_zero(a),
    ensures
        1 <= v3_norm(a) <= FMAX,
{
    let s = a.x * a.x + a.y * a.y + a.z * a.z;
    lemma_square_nonneg(a.x);
    lemma_square_nonneg(a.y);
    lemma_square_nonneg(a.z);
    if a.x != 0 {
        assert(a.x * a.x >= 1) by (nonlinear_arith)
            requires
                a.x != 0,
        ;
    } else if a.y != 0 {
        assert(a.y * a.y >= 1) by (nonlinear_arith)
            requires
                a.y != 0,
        ;
    } else {
        assert(a.z * a.z >= 1) by (nonlinear_arith)
            requires
                a.z != 0,
        ;
    }
    lemma_isqrt_props(s as nat);
    let q = isqrt_s(s as nat);
    assert(q >= 1) by (nonlinear_arith)
        requires
            s >= 1,
            s < (q + 1) * (q + 1),
            q >= 0,
    ;
}

/// Every component of a normalized vector lies within [-ONE, ONE], and at
/// least one output component is at least HALF in magnitude.
pub proof fn lemma_normalize_bounds(a: V3)
    requires
        v3_wf(a),
        !v3_is_zero(a),
    ensures
        v3_bounded(v3_normalize(a), ONE as int),
        !v3_is_zero(v3_normalize(a)),
{
    let s = a.x * a.x + a.y * a.y + a.z * a.z;
    let n = v3_norm(a);
    lemma_norm_positive(a);
    lemma_square_nonneg(a.x);
    lemma_square_nonneg(a.y);
    lemma_square_nonneg(a.z);
    lemma_isqrt_props(s as nat);
    let q = isqrt_s(s as nat) as int;
    lemma_comp_le_norm(a.x, s as nat);
    lemma_comp_le_norm(a.y, s as nat);
    lemma_comp_le_norm(a.z, s as nat);
    // Either the norm did not saturate and equals q >= |component|, or it
    // saturated at FMAX, which bounds every component of a well-formed vector.
    assert(n == sat(q));
    assert(-n <= a.x <= n && -n <= a.y <= n && -n <= a.z <= n);
    lemma_normalize_comp(a.x, n);
    lemma_normalize_comp(a.y, n);
    lemma_normalize_comp(a.z, n);
    // The largest component magnitude mm satisfies s <= 3*mm*mm, so n < 2*mm
    // and the corresponding output component is at least HALF.
    let mx = if a.x >= 0 { a.x } else { -a.x };
    let my = if a.y >= 0 { a.y } else { -a.y };
    let mz = if a.z >= 0 { a.z } else { -a.z };
    let mm = if mx >= my { if mx >= mz { mx } else { mz } } else { if my >= mz { my } else { mz } };
    assert(s <= 3 * mm * mm) by (nonlinear_arith)
        requires
            s == a.x * a.x + a.y * a.y + a.z * a.z,
            mm >= a.x >= -mm,
            mm >= a.y >= -mm,
            mm >= a.z >= -mm,
    ;
    assert(mm >= 1);
    assert(n < 2 * mm) by (nonlinear_arith)
        requires
            n <= q,
            q * q <= s,
            s <= 3 * mm * mm,
            mm >= 1,
            n >= 1,
            q >= 0,
    ;
    lemma_div_is_ordered_by_denominator(mm * ONE, n, 2 * mm);
    lemma_div_by_multiple(HALF as int, 2 * mm);
    assert((HALF as int) * (2 * mm) == mm * ONE) by (nonlinear_arith);
    assert((mm * ONE) / n >= HALF);
    assert(tdiv(mm * ONE, n) >= HALF);
    assert(fx_div_s(mm, n) >= 1);
    if mm == a.x || mm == -a.x {
        lemma_fx_div_neg(a.x, n);
        assert(!v3_is_zero(v3_normalize(a)));
    } else if mm == a.y || mm == -a.y {
        lemma_fx_div_neg(a.y, n);
        assert(!v3_is_zero(v3_normalize(a)));
    } else {
        lemma_fx_div_neg(a.z, n);
        assert(!v3_is_zero(v3_normalize(a)));
    }
}

/// fx_div_s of a negated numerator is the negated quotient (positive divisor).
proof fn lemma_fx_div_neg(a: int, n: int)
    requires
        n >= 1,
    ensures
        fx_div_s(-a, n) == -fx_div_s(a, n),
{
    assert((-a) * ONE == -(a * ONE)) by (nonlinear_arith);
}

/// |a| <= isqrt of any sum of squares containing a*a.
proof fn lemma_comp_le_norm(a: int, s: nat)
    requires
        a * a <= s,
    ensures
        (if a >= 0 { a } else { -a }) <= isqrt_s(s),
{
    let m = if a >= 0 { a } else { -a };
    lemma_square_nonneg(a);
    if a >= 0 {
    } else {
        assert((-a) * (-a) == a * a) by (nonlinear_arith);
    }
    lemma_isqrt_props(s);
    assert(m <= isqrt_s(s)) by (nonlinear_arith)
        requires
            m * m <= s,
            s < (isqrt_s(s) + 1) * (isqrt_s(s) + 1),
            m >= 0,
            isqrt_s(s) >= 0,
    ;
}

/// With |a| <= n and n >= 1, the normalized component lies in [-ONE, ONE].
proof fn lemma_normalize_comp(a: int, n: int)
    requires
        n >= 1,
        -n <= a <= n,
    ensures
        -ONE <= fx_div_s(a, n) <= ONE,
{
    lemma_mul_bounds(a, ONE as int, n, ONE as int);
    lemma_tdiv_bounds(a * ONE, n, n * ONE);
    lemma_div_by_multiple(ONE as int, n);
    assert(ONE * n == n * ONE) by (nonlinear_arith);
    assert((n * ONE) / n == ONE);
}

/// A ray: an origin point and a direction that is always unit length,
/// normalized once at construction.
#[derive(Clone, Copy)]
pub struct Ray {
    pub origin: Vector,
    pub direction: Vector,
}

impl Ray {
    /// Origin inside the world box; direction unit-bounded and nonzero.
    pub open spec fn wf(self) -> bool {
        &&& v3_bounded(self.origin@, PMAX as int)
        &&& v3_bounded(self.direction@, ONE as int)
        &&& !v3_is_zero(self.direction@)
    }

    pub fn new(origin: Vector, direction: Vector) -> (r: Ray)
        requires
            v3_bounded(origin@, PMAX as int),
            direction.wf(),
            !v3_is_zero(direction@),
        ensures
            r.origin == origin,
            r.direction@ == v3_normalize(direction@),
            r.wf(),
    {
        Ray { origin, direction: direction.normalize() }
    }

    pub fn origin(&self) -> (r: Vector)
        ensures
            r == self.origin,
    {
        self.origin
    }

    pub fn direction(&self) -> (r: Vector)
        ensures
            r == self.direction,
    {
        self.direction
    }

    /// The point this ray reaches after the given distance, clamped into the
    /// world box.
    pub fn extend(&self, distance: i64) -> (r: Vector)
        ensures
            r@ == v3_extend(self.origin@, self.direction@, distance as int),
            v3_bounded(r@, PMAX as int),
    {
        proof {
            lemma_mul_bounds(self.direction.x as int, distance as int,
                0x8000_0000_0000_0000, 0x8000_0000_0000_0000);
            lemma_mul_bounds(self.direction.y as int, distance as int,
                0x8000_0000_0000_0000, 0x8000_0000_0000_0000);
            lemma_mul_bounds(self.direction.z as int, distance as int,
                0x8000_0000_0000_0000, 0x8000_0000_0000_0000);
        }
        let dx: i128 = (self.direction.x as i128) * (distance as i128);
        let dy: i128 = (self.direction.y as i128) * (distance as i128);
        let dz: i128 = (self.direction.z as i128) * (distance as i128);
        Vector {
            x: clamp_point((self.origin.x as i128) + tdiv_128(dx)),
            y: clamp_point((self.origin.y as i128) + tdiv_128(dy)),
            z: clamp_point((self.origin.z as i128) + tdiv_128(dz)),
        }
    }
}

/// Truncating division of an i128 by ONE.
fn tdiv_128(a: i128) -> (r: i128)
    requires
        -0x4000_0000_0000_0000_0000_0000_0000_0000 <= a
            <= 0x4000_0000_0000_0000_0000_0000_0000_0000,
    ensures
        r == tdiv(a as int, ONE as int),
        -0x4000_0000_0000_0000_0000_0000_0000_0000 <= r
            <= 0x4000_0000_0000_0000_0000_0000_0000_0000,
{
    proof {
        lemma_tdiv_bounds(a as int, ONE as int, 0x4000_0000_0000_0000_0000_0000_0000_0000);
    }
    if a >= 0 {
        a / 65536
    } else {
        -((-a) / 65536)
    }
}

} // verus!
