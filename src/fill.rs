use vstd::prelude::*;

use vstd::arithmetic::div_mod::lemma_fundamental_div_mod_converse;

use crate::frame::Frame;
use vstd::math::min;

use crate::image::lemma_index_in_grid;

verus! {

/// Rows (or columns) left free before the canvas to centre it; none when it does not fit.
pub open spec fn slack(surface: int, canvas: int) -> int {
    if surface > canvas {
        (surface - canvas) / 2
    } else {
        0
    }
}

/// Whether surface cell `(r, c)` shows canvas row `r - vs`, column `c - hs`:
/// it lies in the centred, clipped canvas and the whole clipped source row is
/// inside the canvas buffer.
pub open spec fn shows_canvas(f: Frame, sw: int, sh: int, r: int, c: int) -> bool {
    let fw = f.canvas_width as int;
    let fh = f.canvas_height as int;
    let row = r - slack(sh, fh);
    let col = c - slack(sw, fw);
    &&& 0 <= row < min(fh, sh)
    &&& 0 <= col < min(fw, sw)
    &&& row * fw + min(fw, sw) <= f.canvas_buffer@.len()
}

/// Where the toolbar strip starts in a `sw` by `sh` surface, flush with the
/// bottom edge, when it is non-empty and fits.
pub open spec fn toolbar_start(f: Frame, sw: int, sh: int) -> Option<int> {
    let len = f.toolbar.buffer@.len() as int;
    if len == 0 || sw == 0 {
        None
    } else {
        let rows = len / sw;
        if rows > sh || (sh - rows) * sw + len > sw * sh {
            None
        } else {
            Some((sh - rows) * sw)
        }
    }
}

/// The colour of surface cell `(r, c)`: the toolbar where it lies, else the
/// canvas where it shows, else the background.
pub open spec fn surface_at(f: Frame, sw: int, sh: int, bg: u32, r: int, c: int) -> u32 {
    let i = r * sw + c;
    let ts = toolbar_start(f, sw, sh);
    if ts is Some && ts->Some_0 <= i < ts->Some_0 + f.toolbar.buffer@.len() {
        f.toolbar.buffer@[i - ts->Some_0]
    } else if shows_canvas(f, sw, sh, r, c) {
        f.canvas_buffer@[(r - slack(sh, f.canvas_height as int)) * f.canvas_width + (c - slack(
            sw,
            f.canvas_width as int,
        ))]
    } else {
        bg
    }
}

proof fn lemma_wide_product(a: int, b: int)
    requires
        0 <= a <= usize::MAX,
        0 <= b <= usize::MAX,
    ensures
        0 <= a * b <= 0xFFFF_FFFF_FFFF_FFFE_0000_0000_0000_0001,
{
    assert(0 <= a * b <= 0xFFFF_FFFF_FFFF_FFFF * 0xFFFF_FFFF_FFFF_FFFF) by (nonlinear_arith)
        requires 0 <= a <= 0xFFFF_FFFF_FFFF_FFFF, 0 <= b <= 0xFFFF_FFFF_FFFF_FFFF;
}

/// The present-ready buffer for a `surface_width` by `surface_height` surface:
/// the background colour, the canvas centred and clipped on it, and the toolbar
/// strip along the bottom. Whatever the sizes of the canvas and the strip, the
/// buffer has exactly one cell per surface pixel.
pub fn composite(surface_width: usize, surface_height: usize, frame: &Frame, bg_color: u32) -> (out:
    Vec<u32>)
    requires
        surface_width * surface_height <= usize::MAX,
    ensures
        out@.len() == surface_width * surface_height,
        forall|r: int, c: int|
            0 <= r < surface_height && 0 <= c < surface_width ==> #[trigger] out@[r
                * surface_width + c] == surface_at(
                *frame,
                surface_width as int,
                surface_height as int,
                bg_color,
                r,
                c,
            ),
{
    let sw = surface_width;
    let sh = surface_height;
    let n: usize = sw * sh;
    let mut out: Vec<u32> = Vec::new();
    if sw == 0 {
        return out;
    }
    let fw = frame.canvas_width;
    let fh = frame.canvas_height;
    let vs: usize = if sh > fh { (sh - fh) / 2 } else { 0 };
    let hs: usize = if sw > fw { (sw - fw) / 2 } else { 0 };
    let draw_h: usize = if fh < sh { fh } else { sh };
    let draw_w: usize = if fw < sw { fw } else { sw };
    let src_len = frame.canvas_buffer.len();
    let tb_len = frame.toolbar.buffer.len();
    let tb_rows: usize = tb_len / sw;
    proof {
        if tb_rows <= sh {
            lemma_wide_product((sh - tb_rows) as int, sw as int);
        }
    }
    let has_tb: bool = tb_len > 0 && tb_rows <= sh && ((sh - tb_rows) as u128) * (sw as u128)
        + tb_len as u128 <= n as u128;
    let tb_start: usize = if has_tb { (sh - tb_rows) * sw } else { 0 };
    proof {
        if tb_rows <= sh {
            assert((sh - tb_rows) * sw <= sh * sw) by (nonlinear_arith)
                requires tb_rows <= sh, sw >= 0;
        }
        if n > 0 {
            assert(sh > 0) by (nonlinear_arith)
                requires n == sw * sh, n > 0, sw > 0;
        }
    }
    let mut i: usize = 0;
    let mut r: usize = 0;
    let mut c: usize = 0;
    while i < n
        invariant
            n == sw * sh,
            sw > 0,
            sw == surface_width,
            sh == surface_height,
            fw == frame.canvas_width,
            fh == frame.canvas_height,
            vs == slack(sh as int, fh as int),
            hs == slack(sw as int, fw as int),
            draw_h == min(fh as int, sh as int),
            draw_w == min(fw as int, sw as int),
            src_len == frame.canvas_buffer@.len(),
            tb_len == frame.toolbar.buffer@.len(),
            has_tb == (toolbar_start(*frame, sw as int, sh as int) is Some),
            has_tb ==> tb_start == toolbar_start(*frame, sw as int, sh as int)->Some_0,
            has_tb ==> tb_start + tb_len <= n,
            i <= n,
            i == r * sw + c,
            c < sw,
            i < n ==> r < sh,
            out@.len() == i,
            forall|j: int|
                0 <= j < i ==> #[trigger] out@[j] == surface_at(
                    *frame,
                    sw as int,
                    sh as int,
                    bg_color,
                    j / (sw as int),
                    j % (sw as int),
                ),
        decreases n - i,
    {
        proof {
            lemma_fundamental_div_mod_converse(i as int, sw as int, r as int, c as int);
            if r >= vs {
                lemma_wide_product((r - vs) as int, fw as int);
            }
        }
        let v: u32 = if has_tb && tb_start <= i && i < tb_start + tb_len {
            frame.toolbar.buffer[i - tb_start]
        } else if r >= vs && r - vs < draw_h && c >= hs && c - hs < draw_w && ((r - vs) as u128)
            * (fw as u128) + draw_w as u128 <= src_len as u128 {
            let row = r - vs;
            let col = c - hs;
            proof {
                assert(row * fw + col < row * fw + draw_w);
            }
            frame.canvas_buffer[row * fw + col]
        } else {
            bg_color
        };
        out.push(v);
        i = i + 1;
        if c + 1 == sw {
            proof {
                assert(i == (r + 1) * sw) by (nonlinear_arith)
                    requires i == r * sw + c + 1, c + 1 == sw;
                if i < n {
                    assert(r + 1 < sh) by (nonlinear_arith)
                        requires i == (r + 1) * sw, i < n, n == sw * sh, sw > 0;
                }
            }
            c = 0;
            r = r + 1;
        } else {
            c = c + 1;
        }
    }
    assert forall|rr: int, cc: int| 0 <= rr < sh && 0 <= cc < sw implies #[trigger] out@[rr * sw
        + cc] == surface_at(*frame, sw as int, sh as int, bg_color, rr, cc) by {
        lemma_index_in_grid(cc, rr, sw as int, sh as int);
        lemma_fundamental_div_mod_converse(rr * sw + cc, sw as int, rr, cc);
    }
    out
}

} // verus!
