//! Materials, lights, the traceable capability, the scene aggregator and the
//! recursive shading engine.

use vstd::prelude::*;
use crate::fixed::{ONE, HALF, FMAX, PMAX, DMAX, CMAX, EPS, tdiv, satp, clamp_s, max0, fx_mul_s,
    fx_div_s, add_sat, fx_pow_s, fx_mul, fx_div, fx_add, fx_pow, tdiv_i128, clamp_point,
    lemma_mul_bounds};
use crate::geometry::{V3, Vector, Ray, v3_bounded, v3_is_zero, v3_add, v3_sub, v3_scale, v3_dot,
    v3_norm, v3_normalize, v3_reflect, v3_refract, v3_extend, lemma_norm_positive};
use crate::primitives::Primitive;

verus! {

/// Surface description: a diffuse color, a Phong exponent, the four albedo
/// weights of the light-transport channels, and a refractive index.
#[derive(Clone, Copy)]
pub struct Material {
    pub diffuse_color: Vector,
    pub specular_exponent: u32,
    pub albedo_diffuse: i64,
    pub albedo_specular: i64,
    pub albedo_reflect: i64,
    pub albedo_refract: i64,
    pub refractive_index: i64,
}

pub open spec fn mat_wf(m: Material) -> bool {
    &&& m.diffuse_color.wf()
    &&& m.specular_exponent >= 1
    &&& m.refractive_index >= 1
}

/// A point light of positive intensity, without distance attenuation.
#[derive(Clone, Copy)]
pub struct Light {
    pub position: Vector,
    pub intensity: i64,
}

pub open spec fn light_wf(l: Light) -> bool {
    &&& v3_bounded(l.position@, CMAX as int)
    &&& l.intensity >= 1
}

/// Correspondence between an executable optional distance and its
/// mathematical value.
pub open spec fn opt_dist_eq(r: Option<i64>, s: Option<int>) -> bool {
    match r {
        Some(t) => s == Some(t as int),
        None => s is None,
    }
}

/// The capability every primitive offers: a nearest-hit query, a material,
/// and a surface normal.
pub trait Traceable: Sized {
    spec fn wf(self) -> bool;

    spec fn spec_intersect(self, o: V3, d: V3) -> Option<int>;

    spec fn spec_normal(self, p: V3) -> V3;

    spec fn spec_material(self) -> Material;

    /// Nearest positive hit distance of the ray, or None. Hits beyond the
    /// far limit DMAX count as no hit.
    fn intersect(&self, ray: &Ray) -> (r: Option<i64>)
        requires
            self.wf(),
            ray.wf(),
        ensures
            opt_dist_eq(r, self.spec_intersect(ray.origin@, ray.direction@)),
            r is Some ==> 0 <= r.unwrap() <= DMAX,
    ;

    fn material(&self) -> (m: Material)
        requires
            self.wf(),
        ensures
            m == self.spec_material(),
            mat_wf(m),
    ;

    /// Unit surface normal at a point of the surface.
    fn normal_at(&self, point: &Vector) -> (n: Vector)
        requires
            self.wf(),
            v3_bounded(point@, PMAX as int),
        ensures
            n@ == self.spec_normal(point@),
            v3_bounded(n@, ONE as int),
            !v3_is_zero(n@),
    ;
}

/// An equirectangular environment texture: row-major 8-bit RGB samples.
pub struct Texture {
    pub width: usize,
    pub height: usize,
    pub pixels: Vec<u8>,
}

pub open spec fn tex_wf(t: Texture) -> bool {
    &&& 1 <= t.width
    &&& 1 <= t.height
    &&& t.pixels@.len() == t.width * t.height * 3
}

/// The scene: an insertion-ordered primitive collection, the lights, and an
/// environment fallback (a flat color, or a texture sampled by direction).
/// It is fully constructed before rendering and never mutated afterwards.
pub struct Scene {
    pub objects: Vec<Primitive>,
    pub lights: Vec<Light>,
    pub environment_color: Vector,
    pub environment_map: Option<Texture>,
}

/// Nearest hit over the first n primitives: the hit of least distance, the
/// earliest inserted primitive winning exact ties.
pub open spec fn scene_hit_upto(objs: Seq<Primitive>, o: V3, d: V3, n: int) -> Option<(int, int)>
    decreases n,
{
    if n <= 0 {
        None
    } else {
        let prev = scene_hit_upto(objs, o, d, n - 1);
        match objs[n - 1].spec_intersect(o, d) {
            Some(t) => match prev {
                Some(pr) => if t < pr.1 {
                    Some((n - 1, t))
                } else {
                    prev
                },
                None => Some((n - 1, t)),
            },
            None => prev,
        }
    }
}

/// Nearest hit over the whole scene.
pub open spec fn scene_hit(s: Scene, o: V3, d: V3) -> Option<(int, int)> {
    scene_hit_upto(s.objects@, o, d, s.objects@.len() as int)
}

/// Secondary-ray origin: the surface point pushed a small bias along the
/// normal, away from the side the new direction leaves from.
pub open spec fn offset_s(dir: V3, point: V3, nrm: V3) -> V3 {
    let off = v3_scale(nrm, EPS as int);
    if v3_dot(dir, nrm) < 0 {
        V3 {
            x: satp(point.x - off.x),
            y: satp(point.y - off.y),
            z: satp(point.z - off.z),
        }
    } else {
        V3 {
            x: satp(point.x + off.x),
            y: satp(point.y + off.y),
            z: satp(point.z + off.z),
        }
    }
}

/// Equirectangular lookup of a direction in a texture, with the pixel
/// indices clamped into the valid range and each 8-bit channel scaled
/// into [0, ONE].
pub open spec fn tex_sample_s(t: Texture, d: V3) -> V3 {
    let m = add_sat(v3_norm(d), v3_norm(d));
    let u = add_sat(fx_div_s(-d.z, m), HALF as int);
    let v = add_sat(fx_div_s(-d.y, m), HALF as int);
    let ex = clamp_s(tdiv(u * t.width, ONE as int), 0, t.width - 1);
    let ey = clamp_s(tdiv(v * t.height, ONE as int), 0, t.height - 1);
    let idx = (ey * t.width + ex) * 3;
    V3 {
        x: tdiv(t.pixels@[idx] * ONE, 255),
        y: tdiv(t.pixels@[idx + 1] * ONE, 255),
        z: tdiv(t.pixels@[idx + 2] * ONE, 255),
    }
}

/// What a ray that leaves the scene sees: the texture sample if a map is
/// present, the flat environment color otherwise.
pub open spec fn env_color_s(s: Scene, d: V3) -> V3 {
    match s.environment_map {
        Some(t) => tex_sample_s(t, d),
        None => s.environment_color@,
    }
}

/// One light's diffuse and specular intensity contribution at a hit point.
/// A light whose path is blocked by a primitive at most as far as the light
/// contributes nothing; so does a light sitting exactly on the point.
pub open spec fn light_contrib_s(s: Scene, l: Light, point: V3, nrm: V3, raydir: V3, exp: nat)
    -> (int, int) {
    let lvec = v3_sub(l.position@, point);
    if v3_is_zero(lvec) {
        (0, 0)
    } else {
        let ldir = v3_normalize(lvec);
        let ldist = v3_norm(lvec);
        let sorig = offset_s(ldir, point, nrm);
        let occluded = match scene_hit(s, sorig, ldir) {
            Some(h) => h.1 <= ldist,
            None => false,
        };
        if occluded {
            (0, 0)
        } else {
            let dif = fx_mul_s(l.intensity as int, max0(v3_dot(ldir, nrm)));
            let base = max0(
                v3_dot(v3_scale(v3_reflect(v3_scale(ldir, -ONE as int), nrm), -ONE as int), raydir),
            );
            let spe = fx_mul_s(fx_pow_s(base, exp), l.intensity as int);
            (dif, spe)
        }
    }
}

/// Saturating sums of the first n lights' contributions.
pub open spec fn light_sums_upto(s: Scene, point: V3, nrm: V3, raydir: V3, exp: nat, n: int)
    -> (int, int)
    decreases n,
{
    if n <= 0 {
        (0, 0)
    } else {
        let prev = light_sums_upto(s, point, nrm, raydir, exp, n - 1);
        let c = light_contrib_s(s, s.lights@[n - 1], point, nrm, raydir, exp);
        (add_sat(prev.0, c.0), add_sat(prev.1, c.1))
    }
}

/// The recursive shading algorithm. With the depth exhausted or nothing hit,
/// the environment sample for the direction; at a hit, the sum of the
/// diffuse, specular, reflected and refracted parts, the last two by
/// recursion one level shallower. A degenerate (zero) reflection or
/// refraction direction, and total internal reflection, contribute nothing.
pub open spec fn cast_ray_s(s: Scene, o: V3, d: V3, depth: nat) -> V3
    decreases depth,
{
    if depth == 0 {
        env_color_s(s, d)
    } else {
        match scene_hit(s, o, d) {
            None => env_color_s(s, d),
            Some(h) => {
                let obj = s.objects@[h.0];
                let m = obj.spec_material();
                let point = v3_extend(o, d, h.1);
                let nrm = v3_normalize(obj.spec_normal(point));
                let sums = light_sums_upto(s, point, nrm, d, m.specular_exponent as nat,
                    s.lights@.len() as int);
                let diffuse = v3_scale(v3_scale(m.diffuse_color@, sums.0), m.albedo_diffuse as int);
                let spec_c = v3_scale(
                    v3_scale(V3 { x: ONE as int, y: ONE as int, z: ONE as int }, sums.1),
                    m.albedo_specular as int,
                );
                let rdirraw = v3_reflect(d, nrm);
                let reflect_c = if v3_is_zero(rdirraw) {
                    V3 { x: 0, y: 0, z: 0 }
                } else {
                    let rdir = v3_normalize(rdirraw);
                    let rorig = offset_s(rdir, point, nrm);
                    v3_scale(cast_ray_s(s, rorig, rdir, (depth - 1) as nat), m.albedo_reflect as int)
                };
                let refract_c = match v3_refract(d, nrm, m.refractive_index as int) {
                    None => V3 { x: 0, y: 0, z: 0 },
                    Some(tdirraw) => if v3_is_zero(tdirraw) {
                        V3 { x: 0, y: 0, z: 0 }
                    } else {
                        let tdir = v3_normalize(tdirraw);
                        let torig = offset_s(tdir, point, nrm);
                        v3_scale(cast_ray_s(s, torig, tdir, (depth - 1) as nat),
                            m.albedo_refract as int)
                    },
                };
                v3_add(v3_add(diffuse, spec_c), v3_add(reflect_c, refract_c))
            },
        }
    }
}

/// Correspondence between an executable hit (index and distance) and its
/// mathematical value.
pub open spec fn opt_hit_eq(r: Option<(usize, i64)>, s: Option<(int, int)>) -> bool {
    match r {
        Some(h) => s == Some((h.0 as int, h.1 as int)),
        None => s is None,
    }
}

impl Scene {
    /// Every primitive, light and the environment well formed.
    pub open spec fn wf(self) -> bool {
        &&& forall|i: int|
            0 <= i < self.objects@.len() ==> (#[trigger] self.objects@[i]).wf()
        &&& forall|i: int| 0 <= i < self.lights@.len() ==> light_wf(#[trigger] self.lights@[i])
        &&& self.environment_color.wf()
        &&& match self.environment_map {
            Some(t) => tex_wf(t),
            None => true,
        }
    }

    /// Linear scan for the nearest hit: the least positive distance wins,
    /// the first primitive in insertion order winning exact ties.
    #[verifier::loop_isolation(false)]
    pub fn intersect(&self, ray: &Ray) -> (r: Option<(usize, i64)>)
        requires
            self.wf(),
            ray.wf(),
        ensures
            opt_hit_eq(r, scene_hit(*self, ray.origin@, ray.direction@)),
            r matches Some(h) ==> h.0 < self.objects@.len() && 0 <= h.1 <= DMAX,
    {
        let mut best: Option<(usize, i64)> = None;
        let n = self.objects.len();
        let mut i: usize = 0;
        while i < n
            invariant
                i <= n,
                opt_hit_eq(best, scene_hit_upto(self.objects@, ray.origin@, ray.direction@,
                    i as int)),
                best matches Some(h) ==> h.0 < i && 0 <= h.1 <= DMAX,
            decreases n - i,
        {
            let obj = &self.objects[i];
            let hit = obj.intersect(ray);
            match hit {
                Some(t) => {
                    match best {
                        Some(b) => {
                            if t < b.1 {
                                best = Some((i, t));
                            }
                        },
                        None => {
                            best = Some((i, t));
                        },
                    }
                },
                None => {},
            }
            i = i + 1;
        }
        best
    }

    /// Push a secondary-ray origin a small bias off the surface, on the side
    /// the new direction leaves from, against shadow acne.
    pub fn offset_orig(dir: Vector, point: Vector, n: Vector) -> (r: Vector)
        requires
            v3_bounded(dir@, ONE as int),
            v3_bounded(n@, ONE as int),
        ensures
            r@ == offset_s(dir@, point@, n@),
            v3_bounded(r@, PMAX as int),
    {
        let off = n.scale(EPS);
        let d = dir.dot(&n);
        if d < 0 {
            Vector {
                x: clamp_point((point.x as i128) - (off.x as i128)),
                y: clamp_point((point.y as i128) - (off.y as i128)),
                z: clamp_point((point.z as i128) - (off.z as i128)),
            }
        } else {
            Vector {
                x: clamp_point((point.x as i128) + (off.x as i128)),
                y: clamp_point((point.y as i128) + (off.y as i128)),
                z: clamp_point((point.z as i128) + (off.z as i128)),
            }
        }
    }

    /// The environment sample for a direction.
    pub fn env_sample(&self, dir: &Vector) -> (c: Vector)
        requires
            self.wf(),
            v3_bounded(dir@, ONE as int),
            !v3_is_zero(dir@),
        ensures
            c@ == env_color_s(*self, dir@),
            c.wf(),
    {
        match &self.environment_map {
            None => self.environment_color,
            Some(tex) => {
                let nv = dir.norm();
                proof {
                    lemma_norm_positive(dir@);
                }
                let m = fx_add(nv, nv);
                let u = fx_add(fx_div(-dir.z, m), HALF);
                let v = fx_add(fx_div(-dir.y, m), HALF);
                let w = tex.width;
                let h = tex.height;
                proof {
                    lemma_mul_bounds(u as int, w as int, FMAX as int, usize::MAX as int);
                    lemma_mul_bounds(v as int, h as int, FMAX as int, usize::MAX as int);
                }
                let uw: i128 = (u as i128) * (w as i128);
                let vh: i128 = (v as i128) * (h as i128);
                let exq: i128 = tdiv_i128(uw, 65536);
                let eyq: i128 = tdiv_i128(vh, 65536);
                let ex: usize = if exq < 0 {
                    0
                } else if exq > ((w - 1) as i128) {
                    w - 1
                } else {
                    exq as usize
                };
                let ey: usize = if eyq < 0 {
                    0
                } else if eyq > ((h - 1) as i128) {
                    h - 1
                } else {
                    eyq as usize
                };
                proof {
                    assert(ey * w + ex < w * h) by (nonlinear_arith)
                        requires
                            ex < w,
                            ey < h,
                            w >= 1,
                            h >= 1,
                    ;
                    assert(tex.pixels@.len() == w * h * 3);
                    assert((ey * w + ex) * 3 + 2 < w * h * 3) by (nonlinear_arith)
                        requires
                            ey * w + ex < w * h,
                    ;
                }
                let pl = tex.pixels.len();
                proof {
                    assert((ey * w + ex) * 3 + 2 < pl);
                }
                let idx: usize = (ey * w + ex) * 3;
                let cr = tex.pixels[idx];
                let cg = tex.pixels[idx + 1];
                let cb = tex.pixels[idx + 2];
                Vector {
                    x: ((cr as i64) * ONE) / 255,
                    y: ((cg as i64) * ONE) / 255,
                    z: ((cb as i64) * ONE) / 255,
                }
            },
        }
    }

    /// The recursive shading engine; see `cast_ray_s` for the algorithm.
    #[verifier::loop_isolation(false)]
    #[verifier::rlimit(100)]
    pub fn cast_ray(&self, ray: &Ray, depth: u32) -> (c: Vector)
        requires
            self.wf(),
            ray.wf(),
        ensures
            c@ == cast_ray_s(*self, ray.origin@, ray.direction@, depth as nat),
            c.wf(),
        decreases depth,
    {
        if depth == 0 {
            return self.env_sample(&ray.direction);
        }
        let hit = self.intersect(ray);
        match hit {
            None => self.env_sample(&ray.direction),
            Some((idx, dist)) => {
                let obj = &self.objects[idx];
                let material = obj.material();
                let point = ray.extend(dist);
                let normal_raw = obj.normal_at(&point);
                let normal = normal_raw.normalize();
                let ghost exp = material.specular_exponent as nat;
                let mut diffuse_intensity: i64 = 0;
                let mut specular_intensity: i64 = 0;
                let nl = self.lights.len();
                let mut li: usize = 0;
                while li < nl
                    invariant
                        li <= nl,
                        -FMAX <= diffuse_intensity <= FMAX,
                        -FMAX <= specular_intensity <= FMAX,
                        diffuse_intensity as int == light_sums_upto(*self, point@, normal@,
                            ray.direction@, exp, li as int).0,
                        specular_intensity as int == light_sums_upto(*self, point@, normal@,
                            ray.direction@, exp, li as int).1,
                    decreases nl - li,
                {
                    let light = self.lights[li];
                    let lvec = light.position.sub(&point);
                    if !lvec.is_zero() {
                        let light_direction = lvec.normalize();
                        let light_distance = lvec.norm();
                        let shadow_origin = Scene::offset_orig(light_direction, point, normal);
                        let shadow_ray = Ray { origin: shadow_origin, direction: light_direction };
                        let sh = self.intersect(&shadow_ray);
                        let unoccluded = match sh {
                            None => true,
                            Some(s) => s.1 > light_distance,
                        };
                        if unoccluded {
                            let ld_dot_n = light_direction.dot(&normal);
                            let dterm = fx_mul(light.intensity, if ld_dot_n > 0 {
                                ld_dot_n
                            } else {
                                0
                            });
                            diffuse_intensity = fx_add(diffuse_intensity, dterm);
                            let base_v = light_direction.scale(-ONE).reflect(normal).scale(-ONE);
                            let base_d = base_v.dot(&ray.direction);
                            let base = if base_d > 0 {
                                base_d
                            } else {
                                0
                            };
                            let spec_term = fx_mul(fx_pow(base, material.specular_exponent),
                                light.intensity);
                            specular_intensity = fx_add(specular_intensity, spec_term);
                        }
                    }
                    li = li + 1;
                }
                let diffuse_color = material.diffuse_color.scale(diffuse_intensity).scale(
                    material.albedo_diffuse,
                );
                let white = Vector { x: ONE, y: ONE, z: ONE };
                let specular_color = white.scale(specular_intensity).scale(
                    material.albedo_specular,
                );
                let rdir_raw = ray.direction.reflect(normal);
                let reflect_color = if rdir_raw.is_zero() {
                    Vector { x: 0, y: 0, z: 0 }
                } else {
                    let rdir = rdir_raw.normalize();
                    let rorig = Scene::offset_orig(rdir, point, normal);
                    let rray = Ray { origin: rorig, direction: rdir };
                    self.cast_ray(&rray, depth - 1).scale(material.albedo_reflect)
                };
                let refract_color = match ray.direction.refract(normal, material.refractive_index) {
                    None => Vector { x: 0, y: 0, z: 0 },
                    Some(tdir_raw) => {
                        if tdir_raw.is_zero() {
                            Vector { x: 0, y: 0, z: 0 }
                        } else {
                            let tdir = tdir_raw.normalize();
                            let torig = Scene::offset_orig(tdir, point, normal);
                            let tray = Ray { origin: torig, direction: tdir };
                            self.cast_ray(&tray, depth - 1).scale(material.albedo_refract)
                        }
                    },
                };
                diffuse_color.add(&specular_color).add(&reflect_color.add(&refract_color))
            },
        }
    }
}

} // verus!
