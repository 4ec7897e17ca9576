//! The two primitive kinds: a sphere and a bounded horizontal plane.

use vstd::prelude::*;
use crate::fixed::{ONE, PMAX, DMAX, CMAX, tdiv, tdivs, isqrt_s, tdiv_i128, isqrt,
    lemma_mul_bounds, lemma_tdiv_bounds, lemma_square_nonneg};
use crate::geometry::{V3, Vector, Ray, v3_bounded, v3_is_zero, v3_sub, v3_normalize, v3_extend};
use crate::scene::{Material, Traceable, mat_wf, opt_dist_eq};

verus! {

#[derive(Clone, Copy)]
pub struct Sphere {
    pub center: Vector,
    pub radius: i64,
    pub material: Material,
}

#[derive(Clone, Copy)]
pub struct Plane {
    pub y: i64,
    pub x_min: i64,
    pub x_max: i64,
    pub z_min: i64,
    pub z_max: i64,
    pub material: Material,
}

pub open spec fn sphere_wf(sp: Sphere) -> bool {
    &&& v3_bounded(sp.center@, CMAX as int)
    &&& 1 <= sp.radius <= CMAX
    &&& mat_wf(sp.material)
}

pub open spec fn plane_wf(pl: Plane) -> bool {
    &&& -CMAX <= pl.y <= CMAX
    &&& -CMAX <= pl.x_min <= CMAX
    &&& -CMAX <= pl.x_max <= CMAX
    &&& -CMAX <= pl.z_min <= CMAX
    &&& -CMAX <= pl.z_max <= CMAX
    &&& mat_wf(pl.material)
}

/// Offset from the ray origin to the sphere center.
pub open spec fn sphere_l(sp: Sphere, o: V3) -> V3 {
    V3 { x: sp.center@.x - o.x, y: sp.center@.y - o.y, z: sp.center@.z - o.z }
}

/// Distance along the ray of the closest approach to the center.
pub open spec fn sphere_tca(sp: Sphere, o: V3, d: V3) -> int {
    let l = sphere_l(sp, o);
    tdiv(l.x * d.x + l.y * d.y + l.z * d.z, ONE as int)
}

/// Squared distance of the origin to the center.
pub open spec fn sphere_dot_ll(sp: Sphere, o: V3) -> int {
    let l = sphere_l(sp, o);
    tdiv(l.x * l.x + l.y * l.y + l.z * l.z, ONE as int)
}

/// Squared distance of the center to the ray line.
pub open spec fn sphere_d2(sp: Sphere, o: V3, d: V3) -> int {
    let tca = sphere_tca(sp, o, d);
    sphere_dot_ll(sp, o) - tdiv(tca * tca, ONE as int)
}

/// Squared radius.
pub open spec fn sphere_r2(sp: Sphere) -> int {
    tdiv(sp.radius * sp.radius, ONE as int)
}

/// Half-chord: distance from the closest approach to the surface.
pub open spec fn sphere_thc(sp: Sphere, o: V3, d: V3) -> int {
    isqrt_s(((sphere_r2(sp) - sphere_d2(sp, o, d)) * ONE) as nat) as int
}

/// The nearest nonnegative hit distance of a ray and a sphere, or None.
/// A ray starting inside the sphere hits at the exit point; hits beyond
/// the far limit DMAX count as no hit.
pub open spec fn sphere_intersect_s(sp: Sphere, o: V3, d: V3) -> Option<int> {
    if sphere_d2(sp, o, d) > sphere_r2(sp) {
        None
    } else {
        let tca = sphere_tca(sp, o, d);
        let thc = sphere_thc(sp, o, d);
        let t0 = tca - thc;
        let t1 = tca + thc;
        let t = if t0 < 0 { t1 } else { t0 };
        if t < 0 || t > DMAX {
            None
        } else {
            Some(t)
        }
    }
}

/// Unit normal of a sphere at a surface point; a degenerate point equal to
/// the center gets the fixed upward normal.
pub open spec fn sphere_normal_s(sp: Sphere, p: V3) -> V3 {
    let diff = v3_sub(p, sp.center@);
    if v3_is_zero(diff) {
        V3 { x: 0, y: ONE as int, z: 0 }
    } else {
        v3_normalize(diff)
    }
}

/// Signed distance along the ray to the plane's height.
pub open spec fn plane_d_s(pl: Plane, o: V3, d: V3) -> int {
    tdivs((pl.y - o.y) * ONE, d.y)
}

/// Hit distance of a ray and a bounded horizontal plane, or None: rays
/// parallel to the plane never hit, the hit point must fall inside the
/// rectangular bounds, and hits beyond DMAX count as no hit.
pub open spec fn plane_intersect_s(pl: Plane, o: V3, d: V3) -> Option<int> {
    if d.y == 0 {
        None
    } else {
        let t = plane_d_s(pl, o, d);
        if t <= 0 || t > DMAX {
            None
        } else {
            let pt = v3_extend(o, d, t);
            if pl.x_min <= pt.x && pt.x <= pl.x_max && pl.z_min <= pt.z && pt.z <= pl.z_max {
                Some(t)
            } else {
                None
            }
        }
    }
}

impl Traceable for Sphere {
    open spec fn wf(self) -> bool {
        sphere_wf(self)
    }

    open spec fn spec_intersect(self, o: V3, d: V3) -> Option<int> {
        sphere_intersect_s(self, o, d)
    }

    open spec fn spec_normal(self, p: V3) -> V3 {
        sphere_normal_s(self, p)
    }

    open spec fn spec_material(self) -> Material {
        self.material
    }

    fn intersect(&self, ray: &Ray) -> (r: Option<i64>) {
        let o = &ray.origin;
        let d = &ray.direction;
        let lx: i128 = (self.center.x as i128) - (o.x as i128);
        let ly: i128 = (self.center.y as i128) - (o.y as i128);
        let lz: i128 = (self.center.z as i128) - (o.z as i128);
        proof {
            lemma_mul_bounds(lx as int, d.x as int, 0x2000_0000_0000, ONE as int);
            lemma_mul_bounds(ly as int, d.y as int, 0x2000_0000_0000, ONE as int);
            lemma_mul_bounds(lz as int, d.z as int, 0x2000_0000_0000, ONE as int);
            lemma_mul_bounds(lx as int, lx as int, 0x2000_0000_0000, 0x2000_0000_0000);
            lemma_mul_bounds(ly as int, ly as int, 0x2000_0000_0000, 0x2000_0000_0000);
            lemma_mul_bounds(lz as int, lz as int, 0x2000_0000_0000, 0x2000_0000_0000);
            lemma_square_nonneg(lx as int);
            lemma_square_nonneg(ly as int);
            lemma_square_nonneg(lz as int);
            lemma_mul_bounds(self.radius as int, self.radius as int, CMAX as int, CMAX as int);
        }
        let raw_t: i128 = lx * (d.x as i128) + ly * (d.y as i128) + lz * (d.z as i128);
        let tca: i128 = tdiv_i128(raw_t, 65536);
        proof {
            lemma_tdiv_bounds(raw_t as int, ONE as int, 0x6_0000_0000_0000_0000);
            assert(0x6_0000_0000_0000_0000int / (ONE as int) == 0x6_0000_0000_0000int);
            lemma_mul_bounds(tca as int, tca as int, 0x6_0000_0000_0000, 0x6_0000_0000_0000);
        }
        let raw_ll: i128 = lx * lx + ly * ly + lz * lz;
        let dot_ll: i128 = tdiv_i128(raw_ll, 65536);
        let tt: i128 = tdiv_i128(tca * tca, 65536);
        proof {
            lemma_tdiv_bounds(raw_ll as int, ONE as int, 0xc00_0000_0000_0000_0000_0000);
            lemma_tdiv_bounds((tca * tca) as int, ONE as int, 0x24_0000_0000_0000_0000_0000_0000);
        }
        let d2: i128 = dot_ll - tt;
        let r2: i128 = tdiv_i128((self.radius as i128) * (self.radius as i128), 65536);
        proof {
            lemma_tdiv_bounds((self.radius * self.radius) as int, ONE as int,
                0x4000_0000_0000_0000);
        }
        if d2 > r2 {
            None
        } else {
            let k: u128 = ((r2 - d2) * 65536) as u128;
            let thc_u: u128 = isqrt(k);
            proof {
                assert(thc_u < 0x1_0000_0000_0000_0000_0000_0000_0000) by (nonlinear_arith)
                    requires
                        thc_u * thc_u <= k,
                        k < 0x1_0000_0000_0000_0000_0000_0000_0000_0000_0000_0000_0000_0000
                            - 0x1_0000_0000_0000_0000_0000_0000_0000_0000,
                ;
            }
            let thc: i128 = thc_u as i128;
            let t0: i128 = tca - thc;
            let t1: i128 = tca + thc;
            let t: i128 = if t0 < 0 {
                t1
            } else {
                t0
            };
            if t < 0 || t > 0x100_0000_0000i128 {
                None
            } else {
                Some(t as i64)
            }
        }
    }

    fn material(&self) -> (m: Material) {
        self.material
    }

    fn normal_at(&self, point: &Vector) -> (n: Vector) {
        let diff = point.sub(&self.center);
        if diff.is_zero() {
            Vector { x: 0, y: ONE, z: 0 }
        } else {
            diff.normalize()
        }
    }
}

impl Traceable for Plane {
    open spec fn wf(self) -> bool {
        plane_wf(self)
    }

    open spec fn spec_intersect(self, o: V3, d: V3) -> Option<int> {
        plane_intersect_s(self, o, d)
    }

    open spec fn spec_normal(self, p: V3) -> V3 {
        V3 { x: 0, y: ONE as int, z: 0 }
    }

    open spec fn spec_material(self) -> Material {
        self.material
    }

    fn intersect(&self, ray: &Ray) -> (r: Option<i64>) {
        if ray.direction.y == 0 {
            return None;
        }
        let mut num: i128 = ((self.y as i128) - (ray.origin.y as i128)) * 65536;
        let mut den: i128 = ray.direction.y as i128;
        if den < 0 {
            num = -num;
            den = -den;
        }
        let t: i128 = tdiv_i128(num, den);
        if t <= 0 || t > 0x100_0000_0000i128 {
            return None;
        }
        let pt = ray.extend(t as i64);
        if self.x_min <= pt.x && pt.x <= self.x_max && self.z_min <= pt.z && pt.z <= self.z_max {
            Some(t as i64)
        } else {
            None
        }
    }

    fn material(&self) -> (m: Material) {
        self.material
    }

    fn normal_at(&self, point: &Vector) -> (n: Vector) {
        Vector { x: 0, y: ONE, z: 0 }
    }
}

/// The closed set of primitive kinds a scene can hold.
#[derive(Clone, Copy)]
pub enum Primitive {
    Ball(Sphere),
    Slab(Plane),
}

impl Traceable for Primitive {
    open spec fn wf(self) -> bool {
        match self {
            Primitive::Ball(sp) => sp.wf(),
            Primitive::Slab(pl) => pl.wf(),
        }
    }

    open spec fn spec_intersect(self, o: V3, d: V3) -> Option<int> {
        match self {
            Primitive::Ball(sp) => sp.spec_intersect(o, d),
            Primitive::Slab(pl) => pl.spec_intersect(o, d),
        }
    }

    open spec fn spec_normal(self, p: V3) -> V3 {
        match self {
            Primitive::Ball(sp) => sp.spec_normal(p),
            Primitive::Slab(pl) => pl.spec_normal(p),
        }
    }

    open spec fn spec_material(self) -> Material {
        match self {
            Primitive::Ball(sp) => sp.spec_material(),
            Primitive::Slab(pl) => pl.spec_material(),
        }
    }

    fn intersect(&self, ray: &Ray) -> (r: Option<i64>) {
        match self {
            Primitive::Ball(sp) => sp.intersect(ray),
            Primitive::Slab(pl) => pl.intersect(ray),
        }
    }

    fn material(&self) -> (m: Material) {
        match self {
            Primitive::Ball(sp) => sp.material(),
            Primitive::Slab(pl) => pl.material(),
        }
    }

    fn normal_at(&self, point: &Vector) -> (n: Vector) {
        match self {
            Primitive::Ball(sp) => sp.normal_at(point),
            Primitive::Slab(pl) => pl.normal_at(point),
        }
    }
}

} // verus!
