use vstd::prelude::*;

verus! {

/// The packed 32-bit ARGB value of four channels: `(a<<24)|(r<<16)|(g<<8)|b`.
pub open spec fn pack(a: u8, r: u8, g: u8, b: u8) -> u32 {
    (a as u32 * 0x1000000 + r as u32 * 0x10000 + g as u32 * 0x100 + b as u32) as u32
}

/// Luminance of a colour: `0.299 R + 0.587 G + 0.114 B`, truncated.
pub open spec fn luminance(r: u8, g: u8, b: u8) -> u8 {
    ((299 * r + 587 * g + 114 * b) / 1000) as u8
}

/// A channel blended from `a` towards `b` by the weight `num / den`,
/// rounded to the nearest integer with halves going up.
pub open spec fn blend_channel(a: u8, b: u8, num: int, den: int) -> u8 {
    ((2 * (a * (den - num) + b * num) + den) / (2 * den)) as u8
}

/// A colour with alpha, red, green and blue channels and its packed form.
#[derive(Clone, Copy, Debug, PartialEq, Eq, Structural)]
pub struct Pixel {
    pub a: u8,
    pub r: u8,
    pub g: u8,
    pub b: u8,
    pub argb: u32,
}

/// The pixel with the given channels and a matching packed value.
pub open spec fn mk_pixel(a: u8, r: u8, g: u8, b: u8) -> Pixel {
    Pixel { a, r, g, b, argb: pack(a, r, g, b) }
}

pub open spec fn spec_grayscale(p: Pixel) -> Pixel {
    let y = luminance(p.r, p.g, p.b);
    mk_pixel(p.a, y, y, y)
}

pub open spec fn spec_inverted(p: Pixel) -> Pixel {
    mk_pixel(p.a, (255 - p.r) as u8, (255 - p.g) as u8, (255 - p.b) as u8)
}

/// The display transforms in their fixed order: grayscale first, then inversion.
pub open spec fn spec_effects(p: Pixel, grayscale: bool, inverted: bool) -> Pixel {
    let q = if grayscale { spec_grayscale(p) } else { p };
    if inverted { spec_inverted(q) } else { q }
}

pub open spec fn spec_lerp(p: Pixel, q: Pixel, num: int, den: int) -> Pixel {
    mk_pixel(
        blend_channel(p.a, q.a, num, den),
        blend_channel(p.r, q.r, num, den),
        blend_channel(p.g, q.g, num, den),
        blend_channel(p.b, q.b, num, den),
    )
}

proof fn lemma_blend_bound(a: u8, b: u8, num: int, den: int)
    requires
        0 < den,
        0 <= num <= den,
    ensures
        0 <= (2 * (a * (den - num) + b * num) + den) / (2 * den) <= 255,
{
    let s = a * (den - num) + b * num;
    assert(0 <= a * (den - num)) by (nonlinear_arith)
        requires 0 <= a, 0 <= den - num;
    assert(0 <= b * num) by (nonlinear_arith)
        requires 0 <= b, 0 <= num;
    assert(a * (den - num) <= 255 * (den - num)) by (nonlinear_arith)
        requires a <= 255, 0 <= den - num;
    assert(b * num <= 255 * num) by (nonlinear_arith)
        requires b <= 255, 0 <= num;
    assert(2 * s + den < 256 * (2 * den));
    assert((2 * s + den) / (2 * den) < 256) by (nonlinear_arith)
        requires 2 * s + den < 256 * (2 * den), 0 < den;
    assert(0 <= (2 * s + den) / (2 * den)) by (nonlinear_arith)
        requires 0 <= 2 * s + den, 0 < den;
}

fn blend(a: u8, b: u8, num: u128, den: u128) -> (c: u8)
    requires
        0 < den <= 0x1_0000_0000_0000_0000_0000,
        num <= den,
    ensures
        c == blend_channel(a, b, num as int, den as int),
{
    proof {
        lemma_blend_bound(a, b, num as int, den as int);
        assert(a * (den - num) <= 255 * (den - num)) by (nonlinear_arith)
            requires a <= 255, num <= den;
        assert(b * num <= 255 * num) by (nonlinear_arith)
            requires b <= 255;
    }
    let s: u128 = (a as u128) * (den - num) + (b as u128) * num;
    ((2 * s + den) / (2 * den)) as u8
}

impl Pixel {
    /// The packed value agrees with the channels.
    pub open spec fn wf(&self) -> bool {
        self.argb == pack(self.a, self.r, self.g, self.b)
    }

    pub fn new(a: u8, r: u8, g: u8, b: u8) -> (p: Pixel)
        ensures
            p == mk_pixel(a, r, g, b),
    {
        let argb: u32 = a as u32 * 0x1000000 + r as u32 * 0x10000 + g as u32 * 0x100 + b as u32;
        Pixel { a, r, g, b, argb }
    }

    /// Splits a packed ARGB value into its channels.
    pub fn from_argb(argb: u32) -> (p: Pixel)
        ensures
            p.wf(),
            p.argb == argb,
            p.a == argb / 0x1000000,
            p.r == (argb / 0x10000) % 0x100,
            p.g == (argb / 0x100) % 0x100,
            p.b == argb % 0x100,
    {
        let a = (argb / 0x1000000) as u8;
        let r = ((argb / 0x10000) % 0x100) as u8;
        let g = ((argb / 0x100) % 0x100) as u8;
        let b = (argb % 0x100) as u8;
        proof {
            let x = argb as int;
            assert(x == (x / 0x1000000) * 0x1000000 + ((x / 0x10000) % 0x100) * 0x10000
                + ((x / 0x100) % 0x100) * 0x100 + x % 0x100) by (nonlinear_arith)
                requires 0 <= x;
        }
        Pixel { a, r, g, b, argb }
    }

    /// The packed ARGB value computed from the channels.
    pub fn to_argb(&self) -> (v: u32)
        ensures
            v == pack(self.a, self.r, self.g, self.b),
    {
        self.a as u32 * 0x1000000 + self.r as u32 * 0x10000 + self.g as u32 * 0x100 + self.b as u32
    }

    pub fn to_grayscale(&self) -> (p: Pixel)
        ensures
            p == spec_grayscale(*self),
    {
        let y = ((299 * self.r as u32 + 587 * self.g as u32 + 114 * self.b as u32) / 1000) as u8;
        Pixel::new(self.a, y, y, y)
    }

    pub fn to_inverted(&self) -> (p: Pixel)
        ensures
            p == spec_inverted(*self),
    {
        Pixel::new(self.a, 255 - self.r, 255 - self.g, 255 - self.b)
    }

    /// The packed colour shown for this pixel under the display transforms.
    pub fn to_display_color(&self, is_grayscale: bool, is_inverted: bool) -> (v: u32)
        ensures
            v == spec_effects(*self, is_grayscale, is_inverted).argb,
    {
        apply_pixel_effects(*self, is_grayscale, is_inverted).argb
    }

    /// Blends each channel from `self` towards `other` by the weight `num / den`.
    pub fn lerp(&self, other: &Pixel, num: u128, den: u128) -> (p: Pixel)
        requires
            0 < den <= 0x1_0000_0000_0000_0000_0000,
            num <= den,
        ensures
            p == spec_lerp(*self, *other, num as int, den as int),
    {
        let a = blend(self.a, other.a, num, den);
        let r = blend(self.r, other.r, num, den);
        let g = blend(self.g, other.g, num, den);
        let b = blend(self.b, other.b, num, den);
        Pixel::new(a, r, g, b)
    }
}

/// Applies grayscale, then inversion, as enabled.
pub fn apply_pixel_effects(pixel: Pixel, is_grayscale: bool, is_inverted: bool) -> (p: Pixel)
    ensures
        p == spec_effects(pixel, is_grayscale, is_inverted),
{
    let mut q = pixel;
    if is_grayscale {
        q = q.to_grayscale();
    }
    if is_inverted {
        q = q.to_inverted();
    }
    q
}

/// The mean of two channels, rounded with halves going up.
pub open spec fn mean2(a: u8, b: u8) -> u8 {
    ((a + b + 1) / 2) as u8
}

proof fn lemma_half_blend(a: u8, b: u8, num: int, den: int)
    requires
        den > 0,
        2 * num == den,
    ensures
        blend_channel(a, b, num, den) == mean2(a, b),
{
    let x = a + b + 1;
    assert(2 * (a * (den - num) + b * num) + den == x * (2 * num)) by (nonlinear_arith)
        requires 2 * num == den, x == a + b + 1;
    assert(2 * den == 2 * (2 * num));
    assert((x * (2 * num)) / (2 * (2 * num)) == x / 2) by (nonlinear_arith)
        requires num > 0, x >= 0;
}

/// With both weights at one half, a bilinear blend of four pixels is, channel
/// by channel, the rounded mean of the rounded means of the top pair and of the
/// bottom pair.
pub proof fn lemma_half_weight_mean(p00: Pixel, p10: Pixel, p01: Pixel, p11: Pixel, num: int, den: int)
    requires
        den > 0,
        2 * num == den,
    ensures
        spec_lerp(spec_lerp(p00, p10, num, den), spec_lerp(p01, p11, num, den), num, den)
            == mk_pixel(
            mean2(mean2(p00.a, p10.a), mean2(p01.a, p11.a)),
            mean2(mean2(p00.r, p10.r), mean2(p01.r, p11.r)),
            mean2(mean2(p00.g, p10.g), mean2(p01.g, p11.g)),
            mean2(mean2(p00.b, p10.b), mean2(p01.b, p11.b)),
        ),
{
    lemma_half_blend(p00.a, p10.a, num, den);
    lemma_half_blend(p00.r, p10.r, num, den);
    lemma_half_blend(p00.g, p10.g, num, den);
    lemma_half_blend(p00.b, p10.b, num, den);
    lemma_half_blend(p01.a, p11.a, num, den);
    lemma_half_blend(p01.r, p11.r, num, den);
    lemma_half_blend(p01.g, p11.g, num, den);
    lemma_half_blend(p01.b, p11.b, num, den);
    let top = spec_lerp(p00, p10, num, den);
    let bottom = spec_lerp(p01, p11, num, den);
    lemma_half_blend(top.a, bottom.a, num, den);
    lemma_half_blend(top.r, bottom.r, num, den);
    lemma_half_blend(top.g, bottom.g, num, den);
    lemma_half_blend(top.b, bottom.b, num, den);
}

} // verus!
