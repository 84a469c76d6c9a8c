use vstd::prelude::*;

use vstd::arithmetic::div_mod::lemma_fundamental_div_mod_converse;

use crate::frame::Frame;
use crate::image::{effective_dims, lemma_index_in_grid, Image, Rotation};
use crate::pixel::{apply_pixel_effects, spec_effects, spec_lerp, Pixel};

verus! {

/// How destination pixels are sampled from the source.
#[derive(Clone, Copy, Debug, PartialEq, Eq, Structural)]
pub enum InterpolationType {
    NearestNeighbor,
    Bilinear,
}

/// `p / q` rounded to the nearest integer, halves up.
pub open spec fn round_div(p: int, q: int) -> int {
    (2 * p + q) / (2 * q)
}

/// The destination size for a request of `nw` by `nh`: with the aspect ratio
/// locked, the effective source size scaled by the smaller of the two axis
/// ratios and rounded; otherwise the request itself.
pub open spec fn target_dims(ew: int, eh: int, locked: bool, nw: int, nh: int) -> (int, int) {
    if !locked {
        (nw, nh)
    } else if nw * eh <= nh * ew {
        (nw, round_div(eh * nw, ew))
    } else {
        (round_div(ew * nh, eh), nh)
    }
}

/// The destination size for an image.
pub open spec fn image_target_dims(img: Image, nw: int, nh: int) -> (int, int) {
    target_dims(img.eff_width(), img.eff_height(), img.locked_aspect_ratio, nw, nh)
}

/// The source index along an axis of `eff` cells for destination index `d` of `dst`:
/// `floor(d * eff / dst)`, at most `eff - 1`.
pub open spec fn nearest_index(d: int, eff: int, dst: int) -> int {
    let s = (d * eff) / dst;
    if s > eff - 1 {
        eff - 1
    } else {
        s
    }
}

/// The colour of destination `(x, y)` of a `dw` by `dh` nearest-neighbour resample.
pub open spec fn nearest_at(img: Image, dw: int, dh: int, x: int, y: int) -> u32 {
    let sx = nearest_index(x, img.eff_width(), dw);
    let sy = nearest_index(y, img.eff_height(), dh);
    spec_effects(img.rotated_pixel_at(sx, sy), img.is_grayscale, img.inverted).argb
}

/// The source sample point of destination `(x, y)` as two fractions
/// `(nx / ddx, ny / ddy)`: the offset from the destination's centre, scaled to
/// the effective source size, turned back by the rotation about the source's centre.
pub open spec fn sample_point(img: Image, dw: int, dh: int, x: int, y: int) -> (int, int, int, int) {
    let w = img.width as int;
    let h = img.height as int;
    let u = (2 * x + 1 - dw) * img.eff_width();
    let v = (2 * y + 1 - dh) * img.eff_height();
    match img.rotation {
        Rotation::Deg0 => (u + (w - 1) * dw, 2 * dw, v + (h - 1) * dh, 2 * dh),
        Rotation::Deg90 => (v + (w - 1) * dh, 2 * dh, -u + (h - 1) * dw, 2 * dw),
        Rotation::Deg180 => (-u + (w - 1) * dw, 2 * dw, -v + (h - 1) * dh, 2 * dh),
        Rotation::Deg270 => (-v + (w - 1) * dh, 2 * dh, u + (h - 1) * dw, 2 * dw),
    }
}

/// The two lattice neighbours along an axis of `max` cells around the point `n / d`,
/// each clamped into the axis, and the weight of the second as a numerator over `d`:
/// what is left of the point after flooring.
pub open spec fn neighbours(n: int, d: int, max: int) -> (int, int, int) {
    let f = n / d;
    let s0 = if f < 0 {
        0
    } else if f > max - 1 {
        max - 1
    } else {
        f
    };
    let s1 = if s0 + 1 > max - 1 {
        max - 1
    } else {
        s0 + 1
    };
    (s0, s1, n - f * d)
}

/// The colour of destination `(x, y)` of a `dw` by `dh` bilinear resample: the
/// four neighbours, each through the display transforms, blended along x on the
/// top and the bottom row, then the two along y.
pub open spec fn bilinear_at(img: Image, dw: int, dh: int, x: int, y: int) -> u32 {
    let (nx, ddx, ny, ddy) = sample_point(img, dw, dh, x, y);
    let (x0, x1, wx) = neighbours(nx, ddx, img.width as int);
    let (y0, y1, wy) = neighbours(ny, ddy, img.height as int);
    let g = img.is_grayscale;
    let i = img.inverted;
    let p00 = spec_effects(img.pixel_at(x0, y0), g, i);
    let p10 = spec_effects(img.pixel_at(x1, y0), g, i);
    let p01 = spec_effects(img.pixel_at(x0, y1), g, i);
    let p11 = spec_effects(img.pixel_at(x1, y1), g, i);
    let top = spec_lerp(p00, p10, wx, ddx);
    let bottom = spec_lerp(p01, p11, wx, ddx);
    spec_lerp(top, bottom, wy, ddy).argb
}

pub open spec fn sample_at(
    img: Image,
    dw: int,
    dh: int,
    x: int,
    y: int,
    kind: InterpolationType,
) -> u32 {
    match kind {
        InterpolationType::NearestNeighbor => nearest_at(img, dw, dh, x, y),
        InterpolationType::Bilinear => bilinear_at(img, dw, dh, x, y),
    }
}

/// The canvas holds the `dw` by `dh` resample of `img` in cell order.
pub open spec fn rendered(buf: Seq<u32>, img: Image, dw: int, dh: int, kind: InterpolationType) -> bool {
    &&& buf.len() == dw * dh
    &&& forall|x: int, y: int|
        0 <= x < dw && 0 <= y < dh ==> #[trigger] buf[y * dw + x] == sample_at(
            img,
            dw,
            dh,
            x,
            y,
            kind,
        )
}

fn round_div_exec(p: u128, q: u128) -> (r: u128)
    requires
        0 < q <= 0xFFFF_FFFF,
        p <= 0xFFFF_FFFF_FFFF_FFFF_FFFF_FFFF,
    ensures
        r == round_div(p as int, q as int),
{
    (2 * p + q) / (2 * q)
}

/// The destination size for a request of `new_width` by `new_height`.
pub fn fit_dimensions(img: &Image, new_width: usize, new_height: usize) -> (d: (usize, usize))
    requires
        img.width > 0,
        img.height > 0,
    ensures
        (d.0 as int, d.1 as int) == image_target_dims(*img, new_width as int, new_height as int),
{
    let (ew, eh) = img.get_effective_dimensions();
    if !img.locked_aspect_ratio {
        return (new_width, new_height);
    }
    let nw = new_width as u128;
    let nh = new_height as u128;
    let ew = ew as u128;
    let eh = eh as u128;
    proof {
        assert(nw * eh <= 0xFFFF_FFFF_FFFF_FFFF * 0xFFFF_FFFF) by (nonlinear_arith)
            requires nw <= 0xFFFF_FFFF_FFFF_FFFFu128, eh <= 0xFFFF_FFFFu128;
        assert(nh * ew <= 0xFFFF_FFFF_FFFF_FFFF * 0xFFFF_FFFF) by (nonlinear_arith)
            requires nh <= 0xFFFF_FFFF_FFFF_FFFFu128, ew <= 0xFFFF_FFFFu128;
        lemma_aspect_fit(ew as int, eh as int, nw as int, nh as int);
    }
    if nw * eh <= nh * ew {
        (new_width, round_div_exec(eh * nw, ew) as usize)
    } else {
        (round_div_exec(ew * nh, eh) as usize, new_height)
    }
}

/// An aspect-locked destination fits inside the request, and meets it on at
/// least one axis.
pub proof fn lemma_aspect_fit(ew: int, eh: int, nw: int, nh: int)
    requires
        ew > 0,
        eh > 0,
        nw >= 0,
        nh >= 0,
    ensures
        ({
            let (dw, dh) = target_dims(ew, eh, true, nw, nh);
            &&& 0 <= dw <= nw
            &&& 0 <= dh <= nh
            &&& (dw == nw || dh == nh)
        }),
{
    if nw * eh <= nh * ew {
        assert(0 <= round_div(eh * nw, ew) <= nh) by (nonlinear_arith)
            requires
                nw * eh <= nh * ew,
                ew > 0,
                eh > 0,
                nw >= 0,
                round_div(eh * nw, ew) == (2 * (eh * nw) + ew) / (2 * ew),
        ;
    } else {
        assert(0 <= round_div(ew * nh, eh) <= nw) by (nonlinear_arith)
            requires
                nw * eh > nh * ew,
                ew > 0,
                eh > 0,
                nh >= 0,
                round_div(ew * nh, eh) == (2 * (ew * nh) + eh) / (2 * eh),
        ;
    }
}

fn nearest_pixel(img: &Image, dw: usize, dh: usize, x: usize, y: usize) -> (c: u32)
    requires
        img.wf(),
        img.width > 0,
        img.height > 0,
        x < dw,
        y < dh,
    ensures
        c == nearest_at(*img, dw as int, dh as int, x as int, y as int),
{
    let (ew, eh) = img.get_effective_dimensions();
    proof {
        assert(x * ew <= 0xFFFF_FFFF_FFFF_FFFF * 0xFFFF_FFFF) by (nonlinear_arith)
            requires x as int <= 0xFFFF_FFFF_FFFF_FFFFint, ew <= 0xFFFF_FFFFu32;
        assert(y * eh <= 0xFFFF_FFFF_FFFF_FFFF * 0xFFFF_FFFF) by (nonlinear_arith)
            requires y as int <= 0xFFFF_FFFF_FFFF_FFFFint, eh <= 0xFFFF_FFFFu32;
    }
    let sx0 = (x as u128 * ew as u128) / dw as u128;
    let sy0 = (y as u128 * eh as u128) / dh as u128;
    let sx: usize = if sx0 > ew as u128 - 1 {
        ew as usize - 1
    } else {
        sx0 as usize
    };
    let sy: usize = if sy0 > eh as u128 - 1 {
        eh as usize - 1
    } else {
        sy0 as usize
    };
    let p = img.get_rotated_pixel(sx, sy);
    p.to_display_color(img.is_grayscale, img.inverted)
}

/// `n / d` floored, and what is left: `n == q * d + r` with `0 <= r < d`.
fn floor_div(n: i128, d: u128) -> (qr: (i128, u128))
    requires
        0 < d <= 0x4_0000_0000_0000_0000,
        -0x10_0000_0000_0000_0000_0000_0000 <= n <= 0x10_0000_0000_0000_0000_0000_0000,
    ensures
        qr.0 == (n as int) / (d as int),
        qr.1 == (n as int) % (d as int),
{
    if n >= 0 {
        let q = (n as u128) / d;
        let r = (n as u128) % d;
        (q as i128, r)
    } else {
        let m = (-n) as u128;
        let c = (m + d - 1) / d;
        let t = (m + d - 1) % d;
        proof {
            let (mi, di, ci, ti) = (m as int, d as int, c as int, t as int);
            assert(ci == (mi + di - 1) / di);
            assert(ti == (mi + di - 1) % di);
            assert(ci * di + ti == mi + di - 1) by (nonlinear_arith)
                requires ci == (mi + di - 1) / di, ti == (mi + di - 1) % di, di > 0;
            assert(0 <= ti < di);
            assert((-ci) * di == -(ci * di)) by (nonlinear_arith);
            lemma_fundamental_div_mod_converse(n as int, di, -ci, di - 1 - ti);
        }
        (-(c as i128), d - 1 - t)
    }
}

/// The neighbours and weight of `neighbours` for the point `n / d` on an axis of `max` cells.
fn lerp_coords(n: i128, d: u128, max: u32) -> (r: (usize, usize, u128))
    requires
        0 < d <= 0x4_0000_0000_0000_0000,
        -0x10_0000_0000_0000_0000_0000_0000 <= n <= 0x10_0000_0000_0000_0000_0000_0000,
        max > 0,
    ensures
        (r.0 as int, r.1 as int, r.2 as int) == neighbours(n as int, d as int, max as int),
        r.0 < max,
        r.1 < max,
        r.2 < d,
{
    let (f, w) = floor_div(n, d);
    let s0: usize = if f < 0 {
        0
    } else if f > max as i128 - 1 {
        max as usize - 1
    } else {
        f as usize
    };
    let s1: usize = if s0 + 1 > max as usize - 1 {
        max as usize - 1
    } else {
        s0 + 1
    };
    proof {
        let (ni, di, fi, wi) = (n as int, d as int, f as int, w as int);
        assert(ni - fi * di == wi) by (nonlinear_arith)
            requires fi == ni / di, wi == ni % di, di > 0;
    }
    (s0, s1, w)
}

proof fn lemma_mul_abs(a: int, b: int, ab: int, bb: int)
    requires
        -ab <= a <= ab,
        0 <= b <= bb,
    ensures
        -(ab * bb) <= a * b <= ab * bb,
{
    assert(-(ab * bb) <= a * b <= ab * bb) by (nonlinear_arith)
        requires -ab <= a <= ab, 0 <= b <= bb;
}

/// `(2 * d + 1 - dst) * eff`: the offset of destination cell `d` from the centre
/// of `dst` cells, in half cells, scaled by `eff`.
fn scaled_offset(d: usize, dst: usize, eff: u32) -> (r: i128)
    requires
        d < dst,
    ensures
        r == (2 * d + 1 - dst) * eff,
        -0x1_0000_0000_0000_0000_0000_0000int <= r <= 0x1_0000_0000_0000_0000_0000_0000int,
{
    let a: i128 = 2 * (d as i128) + 1 - dst as i128;
    proof {
        lemma_mul_abs(a as int, eff as int, 0x1_0000_0000_0000_0000, 0xFFFF_FFFF);
    }
    a * eff as i128
}

/// `(size - 1) * dst`: the centre of `size` cells, in half cells, scaled by `dst`.
fn center_term(size: u32, dst: usize) -> (r: i128)
    requires
        size > 0,
    ensures
        r == (size - 1) * dst,
        0 <= r <= 0x1_0000_0000_0000_0000_0000_0000int,
{
    proof {
        lemma_mul_abs((size - 1) as int, dst as int, 0xFFFF_FFFF, 0xFFFF_FFFF_FFFF_FFFF);
    }
    (size as i128 - 1) * dst as i128
}

fn sample_point_exec(img: &Image, dw: usize, dh: usize, x: usize, y: usize) -> (r: (
    i128,
    u128,
    i128,
    u128,
))
    requires
        img.width > 0,
        img.height > 0,
        x < dw,
        y < dh,
    ensures
        (r.0 as int, r.1 as int, r.2 as int, r.3 as int) == sample_point(
            *img,
            dw as int,
            dh as int,
            x as int,
            y as int,
        ),
        0 < r.1 <= 0x4_0000_0000_0000_0000,
        0 < r.3 <= 0x4_0000_0000_0000_0000,
        -0x10_0000_0000_0000_0000_0000_0000 <= r.0 <= 0x10_0000_0000_0000_0000_0000_0000,
        -0x10_0000_0000_0000_0000_0000_0000 <= r.2 <= 0x10_0000_0000_0000_0000_0000_0000,
{
    let (ew, eh) = img.get_effective_dimensions();
    let u = scaled_offset(x, dw, ew);
    let v = scaled_offset(y, dh, eh);
    let ddw: u128 = 2 * dw as u128;
    let ddh: u128 = 2 * dh as u128;
    match img.rotation {
        Rotation::Deg0 => (
            u + center_term(img.width, dw),
            ddw,
            v + center_term(img.height, dh),
            ddh,
        ),
        Rotation::Deg90 => (
            v + center_term(img.width, dh),
            ddh,
            -u + center_term(img.height, dw),
            ddw,
        ),
        Rotation::Deg180 => (
            -u + center_term(img.width, dw),
            ddw,
            -v + center_term(img.height, dh),
            ddh,
        ),
        Rotation::Deg270 => (
            -v + center_term(img.width, dh),
            ddh,
            u + center_term(img.height, dw),
            ddw,
        ),
    }
}

fn bilinear_pixel(img: &Image, dw: usize, dh: usize, x: usize, y: usize) -> (c: u32)
    requires
        img.wf(),
        img.width > 0,
        img.height > 0,
        x < dw,
        y < dh,
    ensures
        c == bilinear_at(*img, dw as int, dh as int, x as int, y as int),
{
    let (nx, ddx, ny, ddy) = sample_point_exec(img, dw, dh, x, y);
    let (x0, x1, wx) = lerp_coords(nx, ddx, img.width);
    let (y0, y1, wy) = lerp_coords(ny, ddy, img.height);
    let g = img.is_grayscale;
    let i = img.inverted;
    let p00 = apply_pixel_effects(img.get_pixel(x0, y0), g, i);
    let p10 = apply_pixel_effects(img.get_pixel(x1, y0), g, i);
    let p01 = apply_pixel_effects(img.get_pixel(x0, y1), g, i);
    let p11 = apply_pixel_effects(img.get_pixel(x1, y1), g, i);
    let top = p00.lerp(&p10, wx, ddx);
    let bottom = p01.lerp(&p11, wx, ddx);
    top.lerp(&bottom, wy, ddy).argb
}

/// Fills every cell of the canvas with its sample of `img`.
fn render(frame: &mut Frame, img: &Image, kind: InterpolationType)
    requires
        old(frame).wf(),
        img.wf(),
        img.width > 0,
        img.height > 0,
    ensures
        rendered(
            final(frame).canvas_buffer@,
            *img,
            old(frame).canvas_width as int,
            old(frame).canvas_height as int,
            kind,
        ),
        final(frame).canvas_width == old(frame).canvas_width,
        final(frame).canvas_height == old(frame).canvas_height,
        final(frame).bg_color == old(frame).bg_color,
        final(frame).toolbar == old(frame).toolbar,
{
    let dw = frame.canvas_width;
    let dh = frame.canvas_height;
    let n = frame.canvas_buffer.len();
    if dw == 0 {
        assert forall|x: int, y: int| 0 <= x < dw && 0 <= y < dh implies #[trigger]
            frame.canvas_buffer@[y * dw + x] == sample_at(*img, dw as int, dh as int, x, y, kind) by {}
        return;
    }
    proof {
        if n > 0 {
            assert(dh > 0) by (nonlinear_arith)
                requires n == dw * dh, n > 0, dw > 0;
        }
    }
    let mut i: usize = 0;
    let mut x: usize = 0;
    let mut y: usize = 0;
    while i < n
        invariant
            n == frame.canvas_buffer@.len(),
            n == dw * dh,
            dw > 0,
            dw == frame.canvas_width,
            dh == frame.canvas_height,
            dw == old(frame).canvas_width,
            dh == old(frame).canvas_height,
            frame.bg_color == old(frame).bg_color,
            frame.toolbar == old(frame).toolbar,
            img.wf(),
            img.width > 0,
            img.height > 0,
            i <= n,
            i == y * dw + x,
            x < dw,
            i < n ==> y < dh,
            forall|j: int|
                0 <= j < i ==> #[trigger] frame.canvas_buffer@[j] == sample_at(
                    *img,
                    dw as int,
                    dh as int,
                    j % (dw as int),
                    j / (dw as int),
                    kind,
                ),
        decreases n - i,
    {
        proof {
            lemma_fundamental_div_mod_converse(i as int, dw as int, y as int, x as int);
        }
        let c = match kind {
            InterpolationType::NearestNeighbor => nearest_pixel(img, dw, dh, x, y),
            InterpolationType::Bilinear => bilinear_pixel(img, dw, dh, x, y),
        };
        frame.canvas_buffer.set(i, c);
        i = i + 1;
        if x + 1 == dw {
            proof {
                assert(i == (y + 1) * dw) by (nonlinear_arith)
                    requires i == y * dw + x + 1, x + 1 == dw;
                if i < n {
                    assert(y + 1 < dh) by (nonlinear_arith)
                        requires i == (y + 1) * dw, i < n, n == dw * dh, dw > 0;
                }
            }
            x = 0;
            y = y + 1;
        } else {
            x = x + 1;
        }
    }
    assert forall|xx: int, yy: int| 0 <= xx < dw && 0 <= yy < dh implies #[trigger]
        frame.canvas_buffer@[yy * dw + xx] == sample_at(*img, dw as int, dh as int, xx, yy, kind) by {
        lemma_index_in_grid(xx, yy, dw as int, dh as int);
        lemma_fundamental_div_mod_converse(yy * dw + xx, dw as int, yy, xx);
    }
}

/// Fills the canvas by nearest-neighbour sampling of `img`.
pub fn nearest_neighbor_interpolation(frame: &mut Frame, img: &Image)
    requires
        old(frame).wf(),
        img.wf(),
        img.width > 0,
        img.height > 0,
    ensures
        rendered(
            final(frame).canvas_buffer@,
            *img,
            old(frame).canvas_width as int,
            old(frame).canvas_height as int,
            InterpolationType::NearestNeighbor,
        ),
        final(frame).canvas_width == old(frame).canvas_width,
        final(frame).canvas_height == old(frame).canvas_height,
        final(frame).bg_color == old(frame).bg_color,
        final(frame).toolbar == old(frame).toolbar,
{
    render(frame, img, InterpolationType::NearestNeighbor)
}

/// Fills the canvas by bilinear sampling of `img`.
pub fn bilinear_interpolation(frame: &mut Frame, img: &Image)
    requires
        old(frame).wf(),
        img.wf(),
        img.width > 0,
        img.height > 0,
    ensures
        rendered(
            final(frame).canvas_buffer@,
            *img,
            old(frame).canvas_width as int,
            old(frame).canvas_height as int,
            InterpolationType::Bilinear,
        ),
        final(frame).canvas_width == old(frame).canvas_width,
        final(frame).canvas_height == old(frame).canvas_height,
        final(frame).bg_color == old(frame).bg_color,
        final(frame).toolbar == old(frame).toolbar,
{
    render(frame, img, InterpolationType::Bilinear)
}

/// Resamples `img` onto the canvas for a request of `new_width` by `new_height`:
/// the canvas takes the size that `image_target_dims` gives and each cell its
/// sample. An image with no pixels leaves the canvas as it is.
pub fn interpolate(
    frame: &mut Frame,
    img: &Image,
    new_width: usize,
    new_height: usize,
    interpolation_type: InterpolationType,
)
    requires
        old(frame).wf(),
        img.wf(),
        new_width * new_height <= usize::MAX,
    ensures
        img.width == 0 || img.height == 0 ==> *final(frame) == *old(frame),
        img.width > 0 && img.height > 0 ==> {
            let (dw, dh) = image_target_dims(*img, new_width as int, new_height as int);
            &&& final(frame).canvas_width == dw
            &&& final(frame).canvas_height == dh
            &&& rendered(final(frame).canvas_buffer@, *img, dw, dh, interpolation_type)
        },
        final(frame).wf(),
        final(frame).bg_color == old(frame).bg_color,
        final(frame).toolbar == old(frame).toolbar,
{
    if img.width == 0 || img.height == 0 {
        return;
    }
    let (dw, dh) = fit_dimensions(img, new_width, new_height);
    proof {
        if img.locked_aspect_ratio {
            lemma_aspect_fit(img.eff_width(), img.eff_height(), new_width as int, new_height as int);
            assert(dw * dh <= new_width * new_height) by (nonlinear_arith)
                requires 0 <= dw <= new_width, 0 <= dh <= new_height;
        }
    }
    frame.resize(dw, dh);
    match interpolation_type {
        InterpolationType::NearestNeighbor => nearest_neighbor_interpolation(frame, img),
        InterpolationType::Bilinear => bilinear_interpolation(frame, img),
    }
}

/// Nearest-neighbour resampling of an upright, untransformed image to its own
/// size reproduces its pixels exactly; with the aspect ratio locked, the
/// destination for a request of its own size is that size.
pub proof fn lemma_nearest_identity(img: Image, buf: Seq<u32>)
    requires
        img.wf(),
        img.width > 0,
        img.height > 0,
        img.rotation == Rotation::Deg0,
        !img.is_grayscale,
        !img.inverted,
        rendered(
            buf,
            img,
            img.width as int,
            img.height as int,
            InterpolationType::NearestNeighbor,
        ),
    ensures
        image_target_dims(img, img.width as int, img.height as int) == (
            img.width as int,
            img.height as int,
        ),
        buf.len() == img.image_data@.len(),
        forall|i: int| 0 <= i < buf.len() ==> #[trigger] buf[i] == img.image_data@[i].argb,
{
    let w = img.width as int;
    let h = img.height as int;
    assert(round_div(h * w, w) == h) by (nonlinear_arith)
        requires w > 0, round_div(h * w, w) == (2 * (h * w) + w) / (2 * w);
    assert(w * h <= h * w) by (nonlinear_arith);
    assert forall|i: int| 0 <= i < buf.len() implies #[trigger] buf[i] == img.image_data@[i].argb by {
        let x = i % w;
        let y = i / w;
        assert(i == y * w + x) by (nonlinear_arith)
            requires w > 0, x == i % w, y == i / w;
        assert(0 <= x < w);
        assert(0 <= y < h) by (nonlinear_arith)
            requires w > 0, y == i / w, 0 <= i < w * h;
        assert((x * w) / w == x) by (nonlinear_arith)
            requires w > 0, 0 <= x;
        assert((y * h) / h == y) by (nonlinear_arith)
            requires h > 0, 0 <= y;
        assert(buf[y * w + x] == sample_at(img, w, h, x, y, InterpolationType::NearestNeighbor));
    }
}

} // verus!
