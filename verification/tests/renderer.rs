use tyray::fixed::{fx_pow, ONE};
use tyray::geometry::{Ray, Vector};
use tyray::primitives::{Plane, Primitive, Sphere};
use tyray::render::{quantize, render, tone_map};
use tyray::scene::{Light, Material, Scene, Texture, Traceable};

fn vec3(x: i64, y: i64, z: i64) -> Vector {
    Vector { x, y, z }
}

fn matte(color: Vector) -> Material {
    Material {
        diffuse_color: color,
        specular_exponent: 10,
        albedo_diffuse: 58982,
        albedo_specular: 0,
        albedo_reflect: 0,
        albedo_refract: 0,
        refractive_index: ONE,
    }
}

#[test]
fn normalize_axis_is_exact() {
    let v = vec3(3 * ONE, 0, 0);
    let u = v.normalize();
    assert_eq!((u.x, u.y, u.z), (ONE, 0, 0));
    assert_eq!(u.norm(), ONE);
}

#[test]
fn normalize_diagonal_norm_is_close_to_one() {
    let v = vec3(ONE, ONE, ONE);
    let n = v.normalize().norm();
    assert!(n >= ONE - 4 && n <= ONE + 2, "norm was {n}");
    let w = vec3(-5 * ONE, 2 * ONE, 7 * ONE + 123);
    let m = w.normalize().norm();
    assert!(m >= ONE - 4 && m <= ONE + 2, "norm was {m}");
}

#[test]
fn reflect_about_axis_normal_is_involutive() {
    let v = vec3(12345, -700, 42);
    let n = vec3(0, ONE, 0);
    let r = v.reflect(n);
    assert_eq!((r.x, r.y, r.z), (12345, 700, 42));
    let rr = r.reflect(n);
    assert_eq!((rr.x, rr.y, rr.z), (v.x, v.y, v.z));
}

#[test]
fn tangent_ray_hits_once_at_closest_approach() {
    // Ray along -z; sphere offset sideways by exactly its radius.
    let sphere = Sphere {
        center: vec3(2 * ONE, 0, -10 * ONE),
        radius: 2 * ONE,
        material: matte(vec3(ONE, ONE, ONE)),
    };
    let ray = Ray::new(vec3(0, 0, 0), vec3(0, 0, -ONE));
    assert_eq!(sphere.intersect(&ray), Some(10 * ONE));
}

#[test]
fn ray_from_inside_hits_exit_point() {
    let sphere = Sphere {
        center: vec3(0, 0, 0),
        radius: 2 * ONE,
        material: matte(vec3(ONE, ONE, ONE)),
    };
    let ray = Ray::new(vec3(0, 0, 0), vec3(0, 0, -ONE));
    assert_eq!(sphere.intersect(&ray), Some(2 * ONE));
}

#[test]
fn missing_ray_yields_no_hit() {
    let sphere = Sphere {
        center: vec3(10 * ONE, 0, -10 * ONE),
        radius: ONE,
        material: matte(vec3(ONE, ONE, ONE)),
    };
    let ray = Ray::new(vec3(0, 0, 0), vec3(0, 0, -ONE));
    assert_eq!(sphere.intersect(&ray), None);
}

#[test]
fn ray_parallel_to_plane_yields_no_hit() {
    let plane = Plane {
        y: -3 * ONE,
        x_min: -10 * ONE,
        x_max: 10 * ONE,
        z_min: -100 * ONE,
        z_max: 100 * ONE,
        material: matte(vec3(ONE, ONE, ONE)),
    };
    let ray = Ray::new(vec3(0, 0, 0), vec3(ONE, 0, 0));
    assert_eq!(plane.intersect(&ray), None);
}

#[test]
fn vertical_ray_hits_plane_inside_bounds() {
    let plane = Plane {
        y: -2 * ONE,
        x_min: -10 * ONE,
        x_max: 10 * ONE,
        z_min: -100 * ONE,
        z_max: ONE,
        material: matte(vec3(ONE, ONE, ONE)),
    };
    let ray = Ray::new(vec3(0, 0, 0), vec3(0, -ONE, 0));
    assert_eq!(plane.intersect(&ray), Some(2 * ONE));
    // The same ray misses once the bounds exclude the hit point.
    let shifted = Plane { x_min: ONE, x_max: 10 * ONE, ..plane };
    assert_eq!(shifted.intersect(&ray), None);
}

fn small_scene(blocker: bool) -> Scene {
    let mut objects = vec![Primitive::Ball(Sphere {
        center: vec3(0, 0, -5 * ONE),
        radius: ONE,
        material: matte(vec3(ONE, 0, 0)),
    })];
    if blocker {
        objects.push(Primitive::Ball(Sphere {
            center: vec3(0, 5 * ONE, -5 * ONE),
            radius: 2 * ONE,
            material: matte(vec3(0, ONE, 0)),
        }));
    }
    Scene {
        objects,
        lights: vec![Light { position: vec3(0, 10 * ONE, -5 * ONE), intensity: 2 * ONE }],
        environment_color: vec3(13107, 45875, 52429),
        environment_map: None,
    }
}

#[test]
fn depth_zero_returns_environment_sample() {
    let scene = small_scene(false);
    // The ray points straight at the sphere, yet depth 0 short-circuits.
    let ray = Ray::new(vec3(0, 0, 0), vec3(0, 0, -ONE));
    let c = scene.cast_ray(&ray, 0);
    assert_eq!((c.x, c.y, c.z), (13107, 45875, 52429));
}

#[test]
fn missing_everything_returns_environment_sample() {
    let scene = small_scene(true);
    let ray = Ray::new(vec3(0, 0, 0), vec3(0, 0, ONE));
    let c = scene.cast_ray(&ray, 6);
    assert_eq!((c.x, c.y, c.z), (13107, 45875, 52429));
}

#[test]
fn fully_blocked_light_contributes_nothing() {
    // The target sphere is lit from straight above; a larger sphere sits
    // between it and the light. The material only has a diffuse channel, so
    // the shaded color collapses to black exactly when the light is blocked.
    let lit = small_scene(false);
    let dark = small_scene(true);
    let ray = Ray::new(vec3(0, ONE / 2, 0), vec3(0, 0, -ONE));
    let clit = lit.cast_ray(&ray, 1);
    let cdark = dark.cast_ray(&ray, 1);
    assert_eq!((cdark.x, cdark.y, cdark.z), (0, 0, 0));
    assert!(clit.x > 0);
}

#[test]
fn environment_texture_is_sampled_when_present() {
    let scene = Scene {
        objects: vec![],
        lights: vec![],
        environment_color: vec3(0, 0, 0),
        environment_map: Some(Texture { width: 1, height: 1, pixels: vec![255, 0, 51] }),
    };
    let ray = Ray::new(vec3(0, 0, 0), vec3(0, 0, -ONE));
    let c = scene.cast_ray(&ray, 6);
    assert_eq!((c.x, c.y, c.z), (ONE, 0, 51 * ONE / 255));
}

#[test]
fn tone_map_rescales_by_the_max_channel() {
    let c = tone_map(vec3(2 * ONE, ONE, ONE / 2));
    assert_eq!((c.x, c.y, c.z), (ONE, ONE / 2, ONE / 4));
    // A color already inside [0, 1] is untouched.
    let d = tone_map(vec3(ONE / 2, ONE / 4, 0));
    assert_eq!((d.x, d.y, d.z), (ONE / 2, ONE / 4, 0));
}

#[test]
fn quantize_clamps_and_scales() {
    assert_eq!(quantize(ONE), 255);
    assert_eq!(quantize(2 * ONE), 255);
    assert_eq!(quantize(0), 0);
    assert_eq!(quantize(-5), 0);
    assert_eq!(quantize(ONE / 2), 127);
}

#[test]
fn power_is_repeated_multiplication() {
    assert_eq!(fx_pow(ONE / 2, 2), ONE / 4);
    assert_eq!(fx_pow(ONE, 1425), ONE);
    assert_eq!(fx_pow(3 * ONE, 0), ONE);
}

#[test]
fn refraction_straight_through_keeps_direction() {
    // Index 1 and head-on incidence: the transmitted ray keeps going down.
    let v = vec3(0, -ONE, 0);
    let n = vec3(0, ONE, 0);
    let t = v.refract(n, ONE).expect("head-on refraction transmits");
    assert_eq!((t.x, t.y, t.z), (0, -ONE, 0));
}

fn reference_scene() -> Scene {
    let ivory = Material {
        diffuse_color: vec3(26214, 26214, 19661),
        specular_exponent: 50,
        albedo_diffuse: 39322,
        albedo_specular: 19661,
        albedo_reflect: 6554,
        albedo_refract: 0,
        refractive_index: ONE,
    };
    let glass = Material {
        diffuse_color: vec3(39322, 45875, 52429),
        specular_exponent: 125,
        albedo_diffuse: 0,
        albedo_specular: 32768,
        albedo_reflect: 6554,
        albedo_refract: 52429,
        refractive_index: 85197,
    };
    let red_rubber = Material {
        diffuse_color: vec3(19661, 6554, 6554),
        specular_exponent: 10,
        albedo_diffuse: 58982,
        albedo_specular: 6554,
        albedo_reflect: 0,
        albedo_refract: 0,
        refractive_index: ONE,
    };
    let mirror = Material {
        diffuse_color: vec3(ONE, ONE, ONE),
        specular_exponent: 1425,
        albedo_diffuse: 0,
        albedo_specular: 10 * ONE,
        albedo_reflect: 52429,
        albedo_refract: 0,
        refractive_index: ONE,
    };
    let floor = Material {
        diffuse_color: vec3(45875, 45875, 13107),
        specular_exponent: 100,
        albedo_diffuse: 19661,
        albedo_specular: 19661,
        albedo_reflect: 32768,
        albedo_refract: 0,
        refractive_index: ONE,
    };
    Scene {
        objects: vec![
            Primitive::Ball(Sphere {
                center: vec3(-3 * ONE, 0, -16 * ONE),
                radius: 6 * ONE,
                material: ivory,
            }),
            Primitive::Ball(Sphere {
                center: vec3(-ONE, -3 * ONE / 2, -8 * ONE),
                radius: 2 * ONE,
                material: glass,
            }),
            Primitive::Ball(Sphere {
                center: vec3(5 * ONE, -3 * ONE, -8 * ONE),
                radius: 2 * ONE,
                material: glass,
            }),
            Primitive::Ball(Sphere {
                center: vec3(3 * ONE / 2, -ONE / 2, -18 * ONE),
                radius: 3 * ONE,
                material: red_rubber,
            }),
            Primitive::Ball(Sphere {
                center: vec3(7 * ONE, 5 * ONE, -18 * ONE),
                radius: 4 * ONE,
                material: mirror,
            }),
            Primitive::Slab(Plane {
                y: -3 * ONE,
                x_min: -10 * ONE,
                x_max: 10 * ONE,
                z_min: -100 * ONE,
                z_max: -5 * ONE,
                material: floor,
            }),
        ],
        lights: vec![
            Light { position: vec3(-20 * ONE, 20 * ONE, 20 * ONE), intensity: 98304 },
            Light { position: vec3(30 * ONE, 50 * ONE, -25 * ONE), intensity: 117965 },
            Light { position: vec3(30 * ONE, 20 * ONE, 30 * ONE), intensity: 111411 },
        ],
        environment_color: vec3(13107, 45875, 52429),
        environment_map: None,
    }
}

#[test]
fn reference_scene_render_is_deterministic_and_well_formed() {
    let scene = reference_scene();
    let a = render(&scene, 4, 4, ONE, ONE, 2);
    let b = render(&scene, 4, 4, ONE, ONE, 2);
    assert_eq!(a.len(), 48);
    assert_eq!(a, b);
    // The top-left pixel looks past every primitive and shows the quantized
    // environment color.
    assert_eq!(&a[0..3], &[50, 178, 204]);
}
