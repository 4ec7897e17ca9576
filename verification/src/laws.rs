//! Laws of the renderer, stated and proved over the same spec functions the
//! executable contracts use.

use vstd::prelude::*;
use vstd::arithmetic::div_mod::{lemma_div_by_multiple, lemma_fundamental_div_mod,
    lemma_remainder_upper, lemma_remainder_lower};
use crate::fixed::{ONE, DMAX, PMAX, CMAX, tdiv, fx_div_s, isqrt_s, lemma_isqrt_props,
    lemma_isqrt_unique, lemma_mul_bounds, lemma_tdiv_bounds, lemma_square_nonneg};
use crate::geometry::{V3, v3_wf, v3_bounded, v3_is_zero, v3_sub, v3_norm, v3_normalize};
use crate::primitives::{Sphere, Plane, sphere_wf, sphere_l, sphere_tca, sphere_dot_ll, sphere_d2, sphere_r2,
    sphere_thc, sphere_intersect_s, plane_intersect_s};
use crate::scene::{Scene, Light, scene_hit, offset_s, env_color_s, light_contrib_s, cast_ray_s};
use crate::render::{max_s, tone_map_s};

verus! {

/// Normalizing a vector that lies on a coordinate axis yields a vector of
/// norm exactly ONE. (Off the axes the executable normalization is only
/// approximately unit length, since each component is truncated once.)
pub proof fn lemma_normalize_axis_unit(a: V3)
    requires
        v3_wf(a),
        !v3_is_zero(a),
        ({
            ||| a.y == 0 && a.z == 0
            ||| a.x == 0 && a.z == 0
            ||| a.x == 0 && a.y == 0
        }),
    ensures
        v3_norm(v3_normalize(a)) == ONE,
{
    let c = if a.y == 0 && a.z == 0 {
        a.x
    } else if a.x == 0 && a.z == 0 {
        a.y
    } else {
        a.z
    };
    let m = if c >= 0 { c } else { -c };
    lemma_square_nonneg(c);
    assert(m * m == c * c) by (nonlinear_arith)
        requires
            m == (if c >= 0 { c } else { -c }),
    ;
    assert(m * m < (m + 1) * (m + 1)) by (nonlinear_arith)
        requires
            m >= 0,
    ;
    lemma_isqrt_unique((c * c) as nat, m as nat);
    assert(v3_norm(a) == m);
    // The nonzero component maps to exactly +-ONE, the others to 0.
    lemma_div_by_multiple(ONE as int, m);
    assert(ONE * m == m * ONE) by (nonlinear_arith);
    assert(tdiv(m * ONE, m) == ONE);
    assert((-m) * ONE == -(m * ONE)) by (nonlinear_arith);
    assert(fx_div_s(m, m) == ONE);
    assert(fx_div_s(-m, m) == -ONE);
    assert(fx_div_s(0, m) == 0) by {
        assert(tdiv(0 * ONE, m) == 0);
    };
    let u = v3_normalize(a);
    assert(u.x * u.x + u.y * u.y + u.z * u.z == ONE * ONE) by (nonlinear_arith)
        requires
            ({
                ||| u.y == 0 && u.z == 0 && (u.x == ONE || u.x == -ONE)
                ||| u.x == 0 && u.z == 0 && (u.y == ONE || u.y == -ONE)
                ||| u.x == 0 && u.y == 0 && (u.z == ONE || u.z == -ONE)
            }),
    ;
    assert((ONE as int) * ONE < (ONE + 1) * (ONE + 1int)) by (nonlinear_arith);
    lemma_isqrt_unique((ONE * ONE) as nat, ONE as nat);
}

/// A ray whose squared center distance exceeds the squared radius misses
/// the sphere: no hit.
pub proof fn lemma_sphere_miss(sp: Sphere, o: V3, d: V3)
    requires
        sphere_d2(sp, o, d) > sphere_r2(sp),
    ensures
        sphere_intersect_s(sp, o, d) is None,
{
}

/// A ray parallel to a horizontal plane never hits it.
pub proof fn lemma_plane_parallel(pl: Plane, o: V3, d: V3)
    requires
        d.y == 0,
    ensures
        plane_intersect_s(pl, o, d) is None,
{
}

/// A ray exactly tangent to a sphere, with the tangent point ahead of the
/// origin and inside the far limit, hits exactly once, at the distance of
/// the closest approach. (A tangent point behind the origin, or beyond the
/// far limit, is no hit.)
pub proof fn lemma_sphere_tangent(sp: Sphere, o: V3, d: V3)
    requires
        sphere_d2(sp, o, d) == sphere_r2(sp),
        0 <= sphere_tca(sp, o, d) <= DMAX,
    ensures
        sphere_intersect_s(sp, o, d) == Some(sphere_tca(sp, o, d)),
{
    reveal_with_fuel(isqrt_s, 1);
    assert(((sphere_r2(sp) - sphere_d2(sp, o, d)) * ONE) as nat == 0nat);
    assert(sphere_thc(sp, o, d) == 0);
}

/// The exact (unrounded) reflection about n, carried at the scale nn = the
/// raw product sum of n with itself: componentwise nn*v - 2*(v.n)*n. The
/// executable reflect computes this map for a unit normal (nn == ONE*ONE),
/// truncating the dot product and each component product once.
pub open spec fn reflect_exact(v: V3, n: V3) -> V3 {
    let nn = n.x * n.x + n.y * n.y + n.z * n.z;
    let dd = v.x * n.x + v.y * n.y + v.z * n.z;
    V3 {
        x: v.x * nn - 2 * dd * n.x,
        y: v.y * nn - 2 * dd * n.y,
        z: v.z * nn - 2 * dd * n.z,
    }
}

/// Reflection is an involution: in exact arithmetic, reflecting any vector
/// twice about the same normal returns the original vector. Each exact
/// reflection carries one scale factor nn, so the double reflection equals
/// the original scaled by nn*nn.
pub proof fn lemma_reflect_involution(v: V3, n: V3)
    ensures
        ({
            let nn = n.x * n.x + n.y * n.y + n.z * n.z;
            reflect_exact(reflect_exact(v, n), n) == (V3 {
                x: nn * nn * v.x,
                y: nn * nn * v.y,
                z: nn * nn * v.z,
            })
        }),
{
    let nn = n.x * n.x + n.y * n.y + n.z * n.z;
    let dd = v.x * n.x + v.y * n.y + v.z * n.z;
    let r1 = reflect_exact(v, n);
    let dd2 = r1.x * n.x + r1.y * n.y + r1.z * n.z;
    assert(r1.x * n.x == (v.x * n.x) * nn - 2 * dd * (n.x * n.x)) by (nonlinear_arith)
        requires
            r1.x == v.x * nn - 2 * dd * n.x,
    ;
    assert(r1.y * n.y == (v.y * n.y) * nn - 2 * dd * (n.y * n.y)) by (nonlinear_arith)
        requires
            r1.y == v.y * nn - 2 * dd * n.y,
    ;
    assert(r1.z * n.z == (v.z * n.z) * nn - 2 * dd * (n.z * n.z)) by (nonlinear_arith)
        requires
            r1.z == v.z * nn - 2 * dd * n.z,
    ;
    assert((v.x * n.x) * nn + (v.y * n.y) * nn + (v.z * n.z) * nn == dd * nn) by (nonlinear_arith)
        requires
            dd == v.x * n.x + v.y * n.y + v.z * n.z,
    ;
    assert(2 * dd * (n.x * n.x) + 2 * dd * (n.y * n.y) + 2 * dd * (n.z * n.z) == 2 * (dd * nn))
        by (nonlinear_arith)
        requires
            nn == n.x * n.x + n.y * n.y + n.z * n.z,
    ;
    assert(dd2 == -(dd * nn));
    assert(dd * nn == nn * dd) by (nonlinear_arith);
    assert(r1.x * nn - 2 * dd2 * n.x == nn * nn * v.x) by (nonlinear_arith)
        requires
            r1.x == v.x * nn - 2 * dd * n.x,
            dd2 == -(nn * dd),
    ;
    assert(r1.y * nn - 2 * dd2 * n.y == nn * nn * v.y) by (nonlinear_arith)
        requires
            r1.y == v.y * nn - 2 * dd * n.y,
            dd2 == -(nn * dd),
    ;
    assert(r1.z * nn - 2 * dd2 * n.z == nn * nn * v.z) by (nonlinear_arith)
        requires
            r1.z == v.z * nn - 2 * dd * n.z,
            dd2 == -(nn * dd),
    ;
}

/// A ray whose origin lies strictly inside a sphere always hits it: the
/// entry root is never ahead of the origin, the exit root never behind it,
/// and the hit is at the exit root (or at distance zero in the boundary case
/// where the truncated entry root lands exactly on the origin).
pub proof fn lemma_sphere_inside(sp: Sphere, o: V3, d: V3)
    requires
        sphere_wf(sp),
        v3_bounded(o, PMAX as int),
        v3_bounded(d, ONE as int),
        sphere_dot_ll(sp, o) < sphere_r2(sp),
    ensures
        ({
            let tca = sphere_tca(sp, o, d);
            let thc = sphere_thc(sp, o, d);
            &&& tca - thc <= 0
            &&& tca + thc >= 0
            &&& sphere_intersect_s(sp, o, d) == Some(
                if tca - thc < 0 {
                    tca + thc
                } else {
                    0int
                },
            )
        }),
{
    let l = sphere_l(sp, o);
    let rawt = l.x * d.x + l.y * d.y + l.z * d.z;
    let rawll = l.x * l.x + l.y * l.y + l.z * l.z;
    let tca = sphere_tca(sp, o, d);
    let dll = sphere_dot_ll(sp, o);
    let tt = tdiv(tca * tca, ONE as int);
    let d2 = sphere_d2(sp, o, d);
    let r2 = sphere_r2(sp);
    let k = (r2 - d2) * ONE;
    let thc = sphere_thc(sp, o, d);
    lemma_square_nonneg(l.x);
    lemma_square_nonneg(l.y);
    lemma_square_nonneg(l.z);
    lemma_square_nonneg(tca);
    lemma_square_nonneg(sp.radius as int);
    // The squared radius at fixed-point scale is below 2^46.
    lemma_mul_bounds(sp.radius as int, sp.radius as int, CMAX as int, CMAX as int);
    lemma_tdiv_bounds((sp.radius * sp.radius) as int, ONE as int, 0x4000_0000_0000_0000);
    assert(0x4000_0000_0000_0000int / 0x10000int == 0x4000_0000_0000int);
    assert(r2 <= 0x4000_0000_0000);
    // The origin lies inside, so the raw squared center offset is below
    // ONE * (r2 + 1) <= 2^62 + 2^16, and each |l component| is below 2^32.
    assert(rawll <= ONE * dll + (ONE - 1)) by {
        lemma_fundamental_div_mod(rawll, ONE as int);
        lemma_remainder_upper(rawll, ONE as int);
        lemma_remainder_lower(rawll, ONE as int);
    };
    assert(dll >= 0);
    assert(ONE * dll + (ONE - 1) < 0x1_0000_0000_0000_0000) by (nonlinear_arith)
        requires
            dll < r2,
            r2 <= 0x4000_0000_0000,
    ;
    lemma_abs_sq_bound(l.x, 0x1_0000_0000);
    lemma_abs_sq_bound(l.y, 0x1_0000_0000);
    lemma_abs_sq_bound(l.z, 0x1_0000_0000);
    // |tca| <= 2^34.
    lemma_mul_bounds(l.x, d.x, 0x1_0000_0000, ONE as int);
    lemma_mul_bounds(l.y, d.y, 0x1_0000_0000, ONE as int);
    lemma_mul_bounds(l.z, d.z, 0x1_0000_0000, ONE as int);
    lemma_tdiv_bounds(rawt, ONE as int, 0x4_0000_0000_0000);
    assert(0x4_0000_0000_0000int / 0x10000int == 0x4_0000_0000int);
    assert(-0x4_0000_0000 <= tca <= 0x4_0000_0000);
    // tt <= 2^52, so the discriminant k is below 2^69.
    lemma_mul_bounds(tca, tca, 0x4_0000_0000, 0x4_0000_0000);
    lemma_tdiv_bounds(tca * tca, ONE as int, 0x10_0000_0000_0000_0000);
    assert(0x10_0000_0000_0000_0000int / 0x10000int == 0x10_0000_0000_0000int);
    assert(0 <= tt <= 0x10_0000_0000_0000);
    assert(d2 == dll - tt);
    assert(d2 <= dll);
    assert(k <= (r2 + tt) * ONE) by (nonlinear_arith)
        requires
            k == (r2 - d2) * ONE,
            d2 == dll - tt,
            dll >= 0,
    ;
    assert((r2 + tt) * ONE <= 0x14_0000_0000_0000_0000) by (nonlinear_arith)
        requires
            r2 <= 0x4000_0000_0000,
            0 <= tt <= 0x10_0000_0000_0000,
    ;
    // The discriminant strictly exceeds tca^2, so the half-chord reaches
    // back past the origin: thc >= |tca|.
    assert(k >= (1 + tt) * ONE) by (nonlinear_arith)
        requires
            k == (r2 - d2) * ONE,
            d2 == dll - tt,
            dll < r2,
    ;
    assert(tca * tca <= ONE * tt + (ONE - 1)) by {
        lemma_fundamental_div_mod(tca * tca, ONE as int);
        lemma_remainder_upper(tca * tca, ONE as int);
        lemma_remainder_lower(tca * tca, ONE as int);
    };
    assert(k > tca * tca) by (nonlinear_arith)
        requires
            k >= (1 + tt) * ONE,
            tca * tca <= ONE * tt + (ONE - 1),
    ;
    let atca = if tca >= 0 { tca } else { -tca };
    assert(atca * atca == tca * tca) by (nonlinear_arith)
        requires
            atca == (if tca >= 0 { tca } else { -tca }),
    ;
    lemma_isqrt_props(k as nat);
    assert(thc == isqrt_s(k as nat) as int);
    assert(atca <= thc) by (nonlinear_arith)
        requires
            atca * atca < k,
            k < (thc + 1) * (thc + 1),
            atca >= 0,
            thc >= 0,
    ;
    assert(tca - thc <= 0);
    assert(tca + thc >= 0);
    // The exit root stays inside the far limit: thc <= 2^35.
    assert(thc <= 0x8_0000_0000) by (nonlinear_arith)
        requires
            thc * thc <= k,
            k <= 0x14_0000_0000_0000_0000,
            thc >= 0,
    ;
    assert(tca + thc <= DMAX);
}

/// |a| <= b when a*a <= b*b and b >= 0.
proof fn lemma_abs_sq_bound(a: int, b: int)
    requires
        a * a <= b * b,
        b >= 0,
    ensures
        -b <= a <= b,
{
    assert(-b <= a <= b) by (nonlinear_arith)
        requires
            a * a <= b * b,
            b >= 0,
    ;
}

/// With the recursion depth exhausted, a cast returns the environment sample
/// for the ray's direction, whatever the ray would otherwise hit.
pub proof fn lemma_cast_depth_zero(s: Scene, o: V3, d: V3)
    ensures
        cast_ray_s(s, o, d, 0) == env_color_s(s, d),
{
}

/// A ray that hits no primitive returns exactly the environment sample for
/// its direction, at any depth.
pub proof fn lemma_cast_no_hit(s: Scene, o: V3, d: V3, depth: nat)
    requires
        scene_hit(s, o, d) is None,
    ensures
        cast_ray_s(s, o, d, depth) == env_color_s(s, d),
{
}

/// A light whose path to the hit point is blocked by a primitive at most as
/// far away as the light contributes zero diffuse and zero specular
/// intensity.
pub proof fn lemma_occluded_light_dark(s: Scene, l: Light, point: V3, nrm: V3, raydir: V3,
    exp: nat)
    requires
        !v3_is_zero(v3_sub(l.position@, point)),
        ({
            let lvec = v3_sub(l.position@, point);
            let ldir = v3_normalize(lvec);
            match scene_hit(s, offset_s(ldir, point, nrm), ldir) {
                Some(h) => h.1 <= v3_norm(lvec),
                None => false,
            }
        }),
    ensures
        light_contrib_s(s, l, point, nrm, raydir, exp) == (0int, 0int),
{
}

/// Tone mapping of a color whose largest channel mx exceeds 1.0 divides
/// every channel by mx exactly (ratios preserved up to the division's
/// truncation), and maps the largest channel to exactly 1.0.
pub proof fn lemma_tone_map_scales(c: V3)
    requires
        max_s(c.x, max_s(c.y, c.z)) > ONE,
    ensures
        ({
            let mx = max_s(c.x, max_s(c.y, c.z));
            &&& tone_map_s(c) == (V3 {
                x: fx_div_s(c.x, mx),
                y: fx_div_s(c.y, mx),
                z: fx_div_s(c.z, mx),
            })
            &&& c.x == mx ==> tone_map_s(c).x == ONE
            &&& c.y == mx ==> tone_map_s(c).y == ONE
            &&& c.z == mx ==> tone_map_s(c).z == ONE
        }),
{
    let mx = max_s(c.x, max_s(c.y, c.z));
    lemma_div_by_multiple(ONE as int, mx);
    assert(ONE * mx == mx * ONE) by (nonlinear_arith);
    assert(tdiv(mx * ONE, mx) == ONE);
}

} // verus!
