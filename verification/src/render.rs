//! The image-generation driver: camera mapping, tone mapping, quantization,
//! and the row-major render loop.
//!
//! The field of view enters as the fixed-point tangents of the half-angle,
//! one per axis (for square pixels: `tan(fov/2 * width/height)` and
//! `tan(fov/2)`), precomputed by the caller.

use vstd::prelude::*;
use crate::fixed::{ONE, FMAX, tdiv, clamp_s, fx_mul_s, fx_div_s, fx_mul, fx_div, tdiv_i128,
    lemma_mul_bounds};
use crate::geometry::{V3, Vector, Ray, v3_normalize};
use crate::scene::{Scene, cast_ray_s};

verus! {

/// The larger of two numbers.
pub open spec fn max_s(a: int, b: int) -> int {
    if a > b {
        a
    } else {
        b
    }
}

/// The camera-space direction of the pixel (x, y), not yet normalized:
/// normalized device coordinates scaled by the half-angle tangents, with a
/// fixed -1.0 depth. Rows count downward from the top of the image.
pub open spec fn pixel_dir_s(x: int, y: int, w: int, h: int, ftx: int, fty: int) -> V3 {
    let ndc_x = tdiv((2 * x + 1) * ONE, w) - ONE;
    let ndc_y = tdiv((2 * (h - y) + 1) * ONE, h) - ONE;
    V3 { x: fx_mul_s(ndc_x, ftx), y: fx_mul_s(ndc_y, fty), z: -ONE as int }
}

/// Tone mapping: a color whose largest channel exceeds 1.0 is rescaled by
/// the reciprocal of that channel, preserving the channel ratios.
pub open spec fn tone_map_s(c: V3) -> V3 {
    let mx = max_s(c.x, max_s(c.y, c.z));
    if mx > ONE {
        V3 { x: fx_div_s(c.x, mx), y: fx_div_s(c.y, mx), z: fx_div_s(c.z, mx) }
    } else {
        c
    }
}

/// Quantization of one channel to 8 bits: scaled by 255 and clamped.
pub open spec fn quant_s(x: int) -> int {
    clamp_s(tdiv(x * 255, ONE as int), 0, 255)
}

/// The final bytes of the pixel (x, y): a primary ray from the origin
/// through the pixel, shaded to the given depth, tone-mapped, quantized.
pub open spec fn render_pixel_s(s: Scene, x: int, y: int, w: int, h: int, ftx: int, fty: int,
    depth: nat) -> (int, int, int) {
    let dir = v3_normalize(pixel_dir_s(x, y, w, h, ftx, fty));
    let c = cast_ray_s(s, V3 { x: 0, y: 0, z: 0 }, dir, depth);
    let t = tone_map_s(c);
    (quant_s(t.x), quant_s(t.y), quant_s(t.z))
}

/// Tone-map a color into the displayable range.
pub fn tone_map(c: Vector) -> (r: Vector)
    requires
        c.wf(),
    ensures
        r@ == tone_map_s(c@),
        r.wf(),
{
    let mx = if c.y > c.z {
        c.y
    } else {
        c.z
    };
    let mx = if c.x > mx {
        c.x
    } else {
        mx
    };
    if mx > ONE {
        Vector { x: fx_div(c.x, mx), y: fx_div(c.y, mx), z: fx_div(c.z, mx) }
    } else {
        c
    }
}

/// Quantize one channel to a byte.
pub fn quantize(x: i64) -> (r: u8)
    ensures
        r as int == quant_s(x as int),
{
    proof {
        lemma_mul_bounds(x as int, 255, 0x8000_0000_0000_0000, 255);
    }
    let p: i128 = (x as i128) * 255;
    let q: i128 = tdiv_i128(p, 65536);
    if q < 0 {
        0
    } else if q > 255 {
        255
    } else {
        q as u8
    }
}

/// Render one pixel of the image.
pub fn render_pixel(s: &Scene, x: usize, y: usize, w: usize, h: usize, ftx: i64, fty: i64,
    depth: u32) -> (r: (u8, u8, u8))
    requires
        s.wf(),
        x < w,
        y < h,
        w <= 65536,
        h <= 65536,
    ensures
        (r.0 as int, r.1 as int, r.2 as int) == render_pixel_s(*s, x as int, y as int, w as int,
            h as int, ftx as int, fty as int, depth as nat),
{
    let xi = x as i64;
    let yi = y as i64;
    let wi = w as i64;
    let hi = h as i64;
    let ndc_x = ((2 * xi + 1) * ONE) / wi - ONE;
    let ndc_y = ((2 * (hi - yi) + 1) * ONE) / hi - ONE;
    let dvec = Vector { x: fx_mul(ndc_x, ftx), y: fx_mul(ndc_y, fty), z: -ONE };
    let ray = Ray::new(Vector { x: 0, y: 0, z: 0 }, dvec);
    let color = s.cast_ray(&ray, depth);
    let t = tone_map(color);
    (quantize(t.x), quantize(t.y), quantize(t.z))
}

/// Render one row of the image: 3 bytes per pixel, left to right.
#[verifier::loop_isolation(false)]
#[verifier::rlimit(100)]
pub fn render_row(s: &Scene, y: usize, w: usize, h: usize, ftx: i64, fty: i64, depth: u32)
    -> (row: Vec<u8>)
    requires
        s.wf(),
        y < h,
        w <= 65536,
        h <= 65536,
    ensures
        row@.len() == 3 * w,
        forall|x: int|
            0 <= x < w ==> {
                let px = render_pixel_s(*s, x, y as int, w as int, h as int, ftx as int,
                    fty as int, depth as nat);
                &&& #[trigger] row@[3 * x] == px.0
                &&& row@[3 * x + 1] == px.1
                &&& row@[3 * x + 2] == px.2
            },
{
    let mut row: Vec<u8> = Vec::new();
    let mut x: usize = 0;
    while x < w
        invariant
            x <= w,
            row@.len() == 3 * x,
            forall|xp: int|
                0 <= xp < x ==> {
                    let px = render_pixel_s(*s, xp, y as int, w as int, h as int, ftx as int,
                        fty as int, depth as nat);
                    &&& #[trigger] row@[3 * xp] == px.0
                    &&& row@[3 * xp + 1] == px.1
                    &&& row@[3 * xp + 2] == px.2
                },
        decreases w - x,
    {
        let p = render_pixel(s, x, y, w, h, ftx, fty, depth);
        let ghost prev_row = row@;
        row.push(p.0);
        row.push(p.1);
        row.push(p.2);
        proof {
            assert forall|xp: int| 0 <= xp <= x implies {
                let px = render_pixel_s(*s, xp, y as int, w as int, h as int, ftx as int,
                    fty as int, depth as nat);
                &&& #[trigger] row@[3 * xp] == px.0
                &&& row@[3 * xp + 1] == px.1
                &&& row@[3 * xp + 2] == px.2
            } by {
                let px = render_pixel_s(*s, xp, y as int, w as int, h as int, ftx as int,
                    fty as int, depth as nat);
                if xp < x {
                    assert(prev_row[3 * xp] == px.0);
                    assert(prev_row[3 * xp + 1] == px.1);
                    assert(prev_row[3 * xp + 2] == px.2);
                    assert(row@[3 * xp] == prev_row[3 * xp]);
                    assert(row@[3 * xp + 1] == prev_row[3 * xp + 1]);
                    assert(row@[3 * xp + 2] == prev_row[3 * xp + 2]);
                } else {
                    assert(xp == x);
                    assert(row@[3 * xp] == p.0);
                    assert(row@[3 * xp + 1] == p.1);
                    assert(row@[3 * xp + 2] == p.2);
                }
            }
        }
        x = x + 1;
    }
    row
}

/// Render the whole image: a row-major grid of RGB bytes, 3 per pixel,
/// rows from the top.
#[verifier::loop_isolation(false)]
#[verifier::rlimit(100)]
pub fn render(s: &Scene, w: usize, h: usize, ftx: i64, fty: i64, depth: u32) -> (img: Vec<u8>)
    requires
        s.wf(),
        1 <= w <= 65536,
        1 <= h <= 65536,
    ensures
        img@.len() == 3 * w * h,
        forall|x: int, y: int|
            0 <= x < w && 0 <= y < h ==> {
                let px = render_pixel_s(*s, x, y, w as int, h as int, ftx as int, fty as int,
                    depth as nat);
                &&& #[trigger] img@[3 * (y * w + x)] == px.0
                &&& img@[3 * (y * w + x) + 1] == px.1
                &&& img@[3 * (y * w + x) + 2] == px.2
            },
{
    let mut img: Vec<u8> = Vec::new();
    let mut y: usize = 0;
    while y < h
        invariant
            y <= h,
            img@.len() == 3 * w * y,
            forall|xp: int, yp: int|
                0 <= xp < w && 0 <= yp < y ==> {
                    let px = render_pixel_s(*s, xp, yp, w as int, h as int, ftx as int,
                        fty as int, depth as nat);
                    &&& #[trigger] img@[3 * (yp * w + xp)] == px.0
                    &&& img@[3 * (yp * w + xp) + 1] == px.1
                    &&& img@[3 * (yp * w + xp) + 2] == px.2
                },
        decreases h - y,
    {
        let mut row = render_row(s, y, w, h, ftx, fty, depth);
        let ghost old_img = img@;
        let ghost the_row = row@;
        img.append(&mut row);
        proof {
            assert(img@ == old_img + the_row);
            assert(3 * w * (y + 1) == 3 * w * y + 3 * w) by (nonlinear_arith);
            assert forall|xp: int, yp: int| 0 <= xp < w && 0 <= yp < y + 1 implies {
                let px = render_pixel_s(*s, xp, yp, w as int, h as int, ftx as int, fty as int,
                    depth as nat);
                &&& #[trigger] img@[3 * (yp * w + xp)] == px.0
                &&& img@[3 * (yp * w + xp) + 1] == px.1
                &&& img@[3 * (yp * w + xp) + 2] == px.2
            } by {
                let pxb = render_pixel_s(*s, xp, yp, w as int, h as int, ftx as int, fty as int,
                    depth as nat);
                if yp < y {
                    assert(3 * (yp * w + xp) + 2 < old_img.len()) by (nonlinear_arith)
                        requires
                            0 <= xp < w,
                            0 <= yp < y,
                            old_img.len() == 3 * w * y,
                    ;
                    assert(old_img[3 * (yp * w + xp)] == pxb.0);
                    assert(old_img[3 * (yp * w + xp) + 1] == pxb.1);
                    assert(old_img[3 * (yp * w + xp) + 2] == pxb.2);
                    assert(img@[3 * (yp * w + xp)] == old_img[3 * (yp * w + xp)]);
                    assert(img@[3 * (yp * w + xp) + 1] == old_img[3 * (yp * w + xp) + 1]);
                    assert(img@[3 * (yp * w + xp) + 2] == old_img[3 * (yp * w + xp) + 2]);
                } else {
                    assert(yp == y);
                    assert(3 * (yp * w + xp) == old_img.len() + 3 * xp) by (nonlinear_arith)
                        requires
                            yp == y,
                            old_img.len() == 3 * w * y,
                    ;
                    assert(the_row[3 * xp] == pxb.0);
                    assert(the_row[3 * xp + 1] == pxb.1);
                    assert(the_row[3 * xp + 2] == pxb.2);
                    assert(img@[old_img.len() as int + 3 * xp] == the_row[3 * xp]);
                    assert(img@[old_img.len() as int + 3 * xp + 1] == the_row[3 * xp + 1]);
                    assert(img@[old_img.len() as int + 3 * xp + 2] == the_row[3 * xp + 2]);
                }
            }
        }
        y = y + 1;
    }
    proof {
        assert(3 * w * h == 3 * w * (h as int)) by (nonlinear_arith);
    }
    img
}

} // verus!
