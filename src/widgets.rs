use vstd::prelude::*;

use vstd::arithmetic::div_mod::lemma_fundamental_div_mod_converse;

use crate::pixel::pack;

verus! {

/// Rows in the toolbar strip.
pub const TOOLBAR_HEIGHT: usize = 40;

/// Side of the square button at the strip's left edge.
pub const BUTTON_SIZE: usize = 40;

pub const WHITE: u32 = 0xFFFF_FFFF;

pub const GRAY: u32 = 0xFF80_8080;

pub const BLACK: u32 = 0xFF00_0000;

/// How much of the pixel at `(x, y)` a rasterized glyph covers, from 0 to 255.
#[derive(Clone, Copy, Debug, PartialEq, Eq, Structural)]
pub struct Coverage {
    pub x: usize,
    pub y: usize,
    pub alpha: u8,
}

/// A channel of a packed colour: 2 for red, 1 for green, 0 for blue.
pub open spec fn channel(c: u32, k: nat) -> int {
    (c as int / pow256(k)) % 256
}

pub open spec fn pow256(k: nat) -> int {
    if k == 0 {
        1
    } else if k == 1 {
        0x100
    } else {
        0x10000
    }
}

/// Text colour `fg` laid over `bg` with coverage `alpha`, opaque.
pub open spec fn blend_text(bg: u32, fg: u32, alpha: u8) -> u32 {
    pack(
        255,
        ((channel(fg, 2) * alpha + channel(bg, 2) * (255 - alpha)) / 255) as u8,
        ((channel(fg, 1) * alpha + channel(bg, 1) * (255 - alpha)) / 255) as u8,
        ((channel(fg, 0) * alpha + channel(bg, 0) * (255 - alpha)) / 255) as u8,
    )
}

/// A strip `width` pixels wide after drawing the glyph coverages in order;
/// those outside the strip are left out.
pub open spec fn apply_glyphs(buf: Seq<u32>, width: int, glyphs: Seq<Coverage>, color: u32) -> Seq<
    u32,
>
    decreases glyphs.len(),
{
    if glyphs.len() == 0 {
        buf
    } else {
        let prev = apply_glyphs(buf, width, glyphs.drop_last(), color);
        let g = glyphs.last();
        let idx = g.y * width + g.x;
        if g.x < width && g.y < TOOLBAR_HEIGHT && idx < prev.len() {
            prev.update(idx, blend_text(prev[idx], color, g.alpha))
        } else {
            prev
        }
    }
}

/// Whether strip index `i` lies in the button's square, inset by 5 pixels.
pub open spec fn in_inset(i: int, width: int) -> bool {
    width > 0 && 5 <= i / width < 35 && 5 <= i % width < 35
}

/// The strip with the button's inset square painted `color`.
pub open spec fn with_inset(buf: Seq<u32>, width: int, color: u32) -> Seq<u32> {
    Seq::new(buf.len(), |i: int| if in_inset(i, width) { color } else { buf[i] })
}

/// Whether the pointer at `(x, y)` is on the button: inside the window, in
/// its bottom `TOOLBAR_HEIGHT` rows, and in the `BUTTON_SIZE` columns at the
/// left edge.
pub open spec fn on_button(x: int, y: int, window_height: int) -> bool {
    x < BUTTON_SIZE && y < window_height && y + TOOLBAR_HEIGHT >= window_height
}

fn blend_text_exec(bg: u32, fg: u32, alpha: u8) -> (c: u32)
    ensures
        c == blend_text(bg, fg, alpha),
{
    let a = alpha as u32;
    let (fr, fgr, fb) = ((fg / 0x10000) % 256, (fg / 0x100) % 256, fg % 256);
    let (br, bgr, bb) = ((bg / 0x10000) % 256, (bg / 0x100) % 256, bg % 256);
    proof {
        lemma_text_channel(fr as int, br as int, a as int);
        lemma_text_channel(fgr as int, bgr as int, a as int);
        lemma_text_channel(fb as int, bb as int, a as int);
    }
    let r = (fr * a + br * (255 - a)) / 255;
    let g = (fgr * a + bgr * (255 - a)) / 255;
    let b = (fb * a + bb * (255 - a)) / 255;
    0xFF00_0000 + r * 0x10000 + g * 0x100 + b
}

proof fn lemma_text_channel(f: int, b: int, a: int)
    requires
        0 <= f < 256,
        0 <= b < 256,
        0 <= a <= 255,
    ensures
        0 <= f * a + b * (255 - a) <= 255 * 255,
        0 <= (f * a + b * (255 - a)) / 255 < 256,
{
    assert(0 <= f * a <= 255 * a) by (nonlinear_arith)
        requires 0 <= f < 256, 0 <= a <= 255;
    assert(0 <= b * (255 - a) <= 255 * (255 - a)) by (nonlinear_arith)
        requires 0 <= b < 256, 0 <= a <= 255;
}

/// A strip of `n` white pixels.
fn white_strip(n: usize) -> (v: Vec<u32>)
    ensures
        v@ == Seq::new(n as nat, |i: int| WHITE),
{
    let mut v: Vec<u32> = Vec::new();
    let mut i: usize = 0;
    while i < n
        invariant
            i <= n,
            v@ == Seq::new(i as nat, |j: int| WHITE),
        decreases n - i,
    {
        v.push(WHITE);
        i = i + 1;
        proof {
            assert(v@ =~= Seq::new(i as nat, |j: int| WHITE));
        }
    }
    v
}

/// A fixed-height strip with a toggle button at its left edge and its caption.
pub struct Toolbar {
    pub width: usize,
    pub buffer: Vec<u32>,
    pub button_pressed: bool,
    /// Rasterized caption shown while the button is up.
    pub normal_caption: Vec<Coverage>,
    /// Rasterized caption shown while the button is down.
    pub pressed_caption: Vec<Coverage>,
}

impl Toolbar {
    pub open spec fn wf(&self) -> bool {
        self.buffer@.len() == TOOLBAR_HEIGHT * self.width
    }

    /// The caption for a button state.
    pub open spec fn caption(&self, pressed: bool) -> Seq<Coverage> {
        if pressed {
            self.pressed_caption@
        } else {
            self.normal_caption@
        }
    }

    /// The strip in its base state: white, with the caption for a button state in black.
    pub open spec fn base_strip(&self, pressed: bool) -> Seq<u32> {
        apply_glyphs(
            Seq::new(self.buffer@.len(), |i: int| WHITE),
            self.width as int,
            self.caption(pressed),
            BLACK,
        )
    }

    /// A white strip `width` pixels wide with the button up and no captions.
    pub fn new(width: usize) -> (t: Toolbar)
        requires
            TOOLBAR_HEIGHT * width <= usize::MAX,
        ensures
            t.wf(),
            t.width == width,
            t.buffer@ == Seq::new((TOOLBAR_HEIGHT * width) as nat, |i: int| WHITE),
            !t.button_pressed,
            t.normal_caption@.len() == 0,
            t.pressed_caption@.len() == 0,
    {
        Toolbar {
            width,
            buffer: white_strip(TOOLBAR_HEIGHT * width),
            button_pressed: false,
            normal_caption: Vec::new(),
            pressed_caption: Vec::new(),
        }
    }

    /// Sets the rasterized captions for the two button states.
    pub fn set_captions(&mut self, normal: Vec<Coverage>, pressed: Vec<Coverage>)
        ensures
            final(self).normal_caption@ == normal@,
            final(self).pressed_caption@ == pressed@,
            final(self).width == old(self).width,
            final(self).buffer@ == old(self).buffer@,
            final(self).button_pressed == old(self).button_pressed,
    {
        self.normal_caption = normal;
        self.pressed_caption = pressed;
    }

    /// Draws glyph coverages in `color`, blending each over what is below it.
    pub fn add_label(&mut self, glyphs: &Vec<Coverage>, color: u32)
        ensures
            final(self).buffer@ == apply_glyphs(
                old(self).buffer@,
                old(self).width as int,
                glyphs@,
                color,
            ),
            final(self).width == old(self).width,
            final(self).button_pressed == old(self).button_pressed,
            final(self).normal_caption@ == old(self).normal_caption@,
            final(self).pressed_caption@ == old(self).pressed_caption@,
    {
        let mut k: usize = 0;
        while k < glyphs.len()
            invariant
                k <= glyphs@.len(),
                self.buffer@ == apply_glyphs(
                    old(self).buffer@,
                    old(self).width as int,
                    glyphs@.subrange(0, k as int),
                    color,
                ),
                self.width == old(self).width,
                self.button_pressed == old(self).button_pressed,
                self.normal_caption@ == old(self).normal_caption@,
                self.pressed_caption@ == old(self).pressed_caption@,
            decreases glyphs@.len() - k,
        {
            proof {
                assert(glyphs@.subrange(0, k as int + 1).drop_last() =~= glyphs@.subrange(
                    0,
                    k as int,
                ));
                assert(glyphs@.subrange(0, k as int + 1).last() == glyphs@[k as int]);
            }
            let g = glyphs[k];
            let n = self.buffer.len();
            if g.x < self.width && g.y < TOOLBAR_HEIGHT && g.y <= (usize::MAX - g.x) / self.width {
                proof {
                    assert(g.y * self.width <= usize::MAX - g.x) by (nonlinear_arith)
                        requires
                            g.y <= (usize::MAX - g.x) / (self.width as int),
                            self.width > 0,
                    ;
                }
                let idx = g.y * self.width + g.x;
                if idx < n {
                    let c = blend_text_exec(self.buffer[idx], color, g.alpha);
                    self.buffer.set(idx, c);
                }
            } else {
                proof {
                    if g.x < self.width && g.y < TOOLBAR_HEIGHT {
                        assert(g.y * self.width + g.x > usize::MAX) by (nonlinear_arith)
                            requires
                                g.y > (usize::MAX - g.x) / (self.width as int),
                                self.width > 0,
                        ;
                    }
                }
            }
            k = k + 1;
        }
        proof {
            assert(glyphs@.subrange(0, k as int) =~= glyphs@);
        }
    }

    /// Draws a caption in black.
    pub fn add_button_label(&mut self, glyphs: &Vec<Coverage>)
        ensures
            final(self).buffer@ == apply_glyphs(
                old(self).buffer@,
                old(self).width as int,
                glyphs@,
                BLACK,
            ),
            final(self).width == old(self).width,
            final(self).button_pressed == old(self).button_pressed,
            final(self).normal_caption@ == old(self).normal_caption@,
            final(self).pressed_caption@ == old(self).pressed_caption@,
    {
        self.add_label(glyphs, BLACK);
    }

    /// Gives the strip a new width, all white.
    pub fn update(&mut self, width: usize)
        requires
            TOOLBAR_HEIGHT * width <= usize::MAX,
        ensures
            final(self).wf(),
            final(self).width == width,
            final(self).buffer@ == Seq::new((TOOLBAR_HEIGHT * width) as nat, |i: int| WHITE),
            final(self).button_pressed == old(self).button_pressed,
            final(self).normal_caption@ == old(self).normal_caption@,
            final(self).pressed_caption@ == old(self).pressed_caption@,
    {
        self.width = width;
        self.buffer = white_strip(TOOLBAR_HEIGHT * width);
    }

    /// Whites out the strip and draws the caption of the button's state.
    pub fn reset(&mut self)
        ensures
            final(self).buffer@ == old(self).base_strip(old(self).button_pressed),
            final(self).width == old(self).width,
            final(self).button_pressed == old(self).button_pressed,
            final(self).normal_caption@ == old(self).normal_caption@,
            final(self).pressed_caption@ == old(self).pressed_caption@,
    {
        self.buffer = white_strip(self.buffer.len());
        if self.button_pressed {
            let caption = self.pressed_caption.clone();
            self.add_button_label(&caption);
        } else {
            let caption = self.normal_caption.clone();
            self.add_button_label(&caption);
        }
    }

    /// Paints the button's inset square.
    fn paint_inset(&mut self, color: u32)
        ensures
            final(self).buffer@ == with_inset(old(self).buffer@, old(self).width as int, color),
            final(self).width == old(self).width,
            final(self).button_pressed == old(self).button_pressed,
            final(self).normal_caption@ == old(self).normal_caption@,
            final(self).pressed_caption@ == old(self).pressed_caption@,
    {
        let n = self.buffer.len();
        let w = self.width;
        if w == 0 {
            proof {
                assert(self.buffer@ =~= with_inset(old(self).buffer@, w as int, color));
            }
            return;
        }
        let mut i: usize = 0;
        let mut row: usize = 0;
        let mut col: usize = 0;
        while i < n
            invariant
                n == self.buffer@.len(),
                n == old(self).buffer@.len(),
                w == self.width,
                w == old(self).width,
                w > 0,
                i <= n,
                i == row * w + col,
                col < w,
                self.button_pressed == old(self).button_pressed,
                self.normal_caption@ == old(self).normal_caption@,
                self.pressed_caption@ == old(self).pressed_caption@,
                forall|j: int|
                    0 <= j < i ==> #[trigger] self.buffer@[j] == with_inset(
                        old(self).buffer@,
                        w as int,
                        color,
                    )[j],
                forall|j: int| i <= j < n ==> #[trigger] self.buffer@[j] == old(self).buffer@[j],
            decreases n - i,
        {
            proof {
                lemma_fundamental_div_mod_converse(i as int, w as int, row as int, col as int);
            }
            if 5 <= row && row < 35 && 5 <= col && col < 35 {
                self.buffer.set(i, color);
            }
            i = i + 1;
            if col + 1 == w {
                proof {
                    assert(i == (row + 1) * w) by (nonlinear_arith)
                        requires i == row * w + col + 1, col + 1 == w;
                }
                col = 0;
                row = row + 1;
            } else {
                col = col + 1;
            }
        }
        proof {
            assert(self.buffer@ =~= with_inset(old(self).buffer@, w as int, color));
        }
    }

    /// On the button and not pressed: redraws the base strip with a gray inset
    /// square and gives true. Otherwise changes nothing and gives false.
    pub fn on_hover(&mut self, x_pos: usize, y_pos: usize, window_height: usize) -> (hovering:
        bool)
        ensures
            hovering == (!old(self).button_pressed && on_button(
                x_pos as int,
                y_pos as int,
                window_height as int,
            )),
            hovering ==> final(self).buffer@ == with_inset(
                old(self).base_strip(old(self).button_pressed),
                old(self).width as int,
                GRAY,
            ),
            !hovering ==> final(self).buffer@ == old(self).buffer@,
            final(self).width == old(self).width,
            final(self).button_pressed == old(self).button_pressed,
            final(self).normal_caption@ == old(self).normal_caption@,
            final(self).pressed_caption@ == old(self).pressed_caption@,
    {
        if self.button_pressed {
            return false;
        }
        if !Self::hit(x_pos, y_pos, window_height) {
            return false;
        }
        self.reset();
        self.paint_inset(GRAY);
        true
    }

    /// On the button: flips its state, redraws the base strip with the inset
    /// square black when pressed and gray when not, and gives true. Otherwise
    /// changes nothing and gives false.
    pub fn on_click(&mut self, x_pos: usize, y_pos: usize, window_height: usize) -> (toggled: bool)
        ensures
            toggled == on_button(x_pos as int, y_pos as int, window_height as int),
            toggled ==> final(self).button_pressed == !old(self).button_pressed,
            toggled ==> final(self).buffer@ == with_inset(
                old(self).base_strip(!old(self).button_pressed),
                old(self).width as int,
                if old(self).button_pressed { GRAY } else { BLACK },
            ),
            !toggled ==> final(self).buffer@ == old(self).buffer@,
            !toggled ==> final(self).button_pressed == old(self).button_pressed,
            final(self).width == old(self).width,
            final(self).normal_caption@ == old(self).normal_caption@,
            final(self).pressed_caption@ == old(self).pressed_caption@,
    {
        if !Self::hit(x_pos, y_pos, window_height) {
            return false;
        }
        self.button_pressed = !self.button_pressed;
        self.reset();
        if self.button_pressed {
            self.paint_inset(BLACK);
        } else {
            self.paint_inset(GRAY);
        }
        true
    }

    fn hit(x_pos: usize, y_pos: usize, window_height: usize) -> (b: bool)
        ensures
            b == on_button(x_pos as int, y_pos as int, window_height as int),
    {
        x_pos < BUTTON_SIZE && y_pos < window_height && window_height - y_pos <= TOOLBAR_HEIGHT
    }
}

} // verus!
