use vstd::prelude::*;

use crate::pixel::Pixel;

verus! {

/// A quarter-turn orientation of an image, clockwise from upright.
#[derive(Clone, Copy, Debug, PartialEq, Eq, Structural)]
pub enum Rotation {
    Deg0,
    Deg90,
    Deg180,
    Deg270,
}

impl Rotation {
    pub open spec fn quarters(self) -> int {
        match self {
            Rotation::Deg0 => 0,
            Rotation::Deg90 => 1,
            Rotation::Deg180 => 2,
            Rotation::Deg270 => 3,
        }
    }

    pub open spec fn spec_degrees(self) -> int {
        90 * self.quarters()
    }

    /// Whether width and height trade places in this orientation.
    pub open spec fn swaps_axes(self) -> bool {
        self == Rotation::Deg90 || self == Rotation::Deg270
    }

    /// The orientation a quarter turn further, clockwise or counter-clockwise.
    pub open spec fn spec_turned(self, clockwise: bool) -> Rotation {
        match self {
            Rotation::Deg0 => if clockwise { Rotation::Deg90 } else { Rotation::Deg270 },
            Rotation::Deg90 => if clockwise { Rotation::Deg180 } else { Rotation::Deg0 },
            Rotation::Deg180 => if clockwise { Rotation::Deg270 } else { Rotation::Deg90 },
            Rotation::Deg270 => if clockwise { Rotation::Deg0 } else { Rotation::Deg180 },
        }
    }

    /// The angle in degrees, one of 0, 90, 180 and 270.
    pub fn degrees(&self) -> (d: u16)
        ensures
            d == self.spec_degrees(),
    {
        match self {
            Rotation::Deg0 => 0,
            Rotation::Deg90 => 90,
            Rotation::Deg180 => 180,
            Rotation::Deg270 => 270,
        }
    }

    /// Turns a quarter further; the angle wraps around a full turn.
    pub fn turned(self, clockwise: bool) -> (r: Rotation)
        ensures
            r == self.spec_turned(clockwise),
            r.spec_degrees() == (self.spec_degrees() + if clockwise { 90int } else { -90int })
                % 360,
    {
        match self {
            Rotation::Deg0 => if clockwise { Rotation::Deg90 } else { Rotation::Deg270 },
            Rotation::Deg90 => if clockwise { Rotation::Deg180 } else { Rotation::Deg0 },
            Rotation::Deg180 => if clockwise { Rotation::Deg270 } else { Rotation::Deg90 },
            Rotation::Deg270 => if clockwise { Rotation::Deg0 } else { Rotation::Deg180 },
        }
    }
}

/// The effective (displayed) width and height of a `w` by `h` image in orientation `rot`.
pub open spec fn effective_dims(w: int, h: int, rot: Rotation) -> (int, int) {
    if rot.swaps_axes() { (h, w) } else { (w, h) }
}

/// The stored coordinates shown at displayed position `(x, y)` of a `w` by `h` image
/// in orientation `rot`.
pub open spec fn rotated_coords(w: int, h: int, rot: Rotation, x: int, y: int) -> (int, int) {
    match rot {
        Rotation::Deg0 => (x, y),
        Rotation::Deg90 => (y, h - 1 - x),
        Rotation::Deg180 => (w - 1 - x, h - 1 - y),
        Rotation::Deg270 => (w - 1 - y, x),
    }
}

/// Four quarter turns in either direction give back the orientation, and with it
/// the mapping from displayed to stored coordinates; upright, that mapping is the
/// identity.
pub proof fn lemma_full_turn(rot: Rotation, clockwise: bool, w: int, h: int, x: int, y: int)
    ensures
        rot.spec_turned(clockwise).spec_turned(clockwise).spec_turned(clockwise).spec_turned(
            clockwise,
        ) == rot,
        rotated_coords(
            w,
            h,
            rot.spec_turned(clockwise).spec_turned(clockwise).spec_turned(clockwise).spec_turned(
                clockwise,
            ),
            x,
            y,
        ) == rotated_coords(w, h, rot, x, y),
        rotated_coords(w, h, Rotation::Deg0, x, y) == (x, y),
{
}

/// A decoded raster with its display state.
pub struct Image {
    pub width: u32,
    pub height: u32,
    pub image_data: Vec<Pixel>,
    pub locked_aspect_ratio: bool,
    pub is_grayscale: bool,
    pub inverted: bool,
    pub rotation: Rotation,
}

impl Image {
    /// The pixel data holds exactly `width * height` pixels, row by row.
    pub open spec fn wf(&self) -> bool {
        self.image_data@.len() == self.width * self.height
    }

    pub open spec fn pixel_at(&self, x: int, y: int) -> Pixel {
        self.image_data@[y * self.width + x]
    }

    pub open spec fn eff_width(&self) -> int {
        effective_dims(self.width as int, self.height as int, self.rotation).0
    }

    pub open spec fn eff_height(&self) -> int {
        effective_dims(self.width as int, self.height as int, self.rotation).1
    }

    /// The stored pixel shown at displayed position `(x, y)`.
    pub open spec fn rotated_pixel_at(&self, x: int, y: int) -> Pixel {
        let c = rotated_coords(self.width as int, self.height as int, self.rotation, x, y);
        self.pixel_at(c.0, c.1)
    }

    /// An upright `width` by `height` image filled with one colour.
    pub fn new(width: u32, height: u32, fill: Pixel, no_aspect: bool) -> (img: Image)
        requires
            width * height <= usize::MAX,
        ensures
            img.wf(),
            img.width == width,
            img.height == height,
            forall|i: int| 0 <= i < img.image_data@.len() ==> img.image_data@[i] == fill,
            img.locked_aspect_ratio == !no_aspect,
            !img.is_grayscale,
            !img.inverted,
            img.rotation == Rotation::Deg0,
    {
        let n: usize = width as usize * height as usize;
        let mut data: Vec<Pixel> = Vec::new();
        let mut i: usize = 0;
        while i < n
            invariant
                i <= n,
                data@.len() == i,
                forall|j: int| 0 <= j < i ==> data@[j] == fill,
            decreases n - i,
        {
            data.push(fill);
            i = i + 1;
        }
        Image {
            width,
            height,
            image_data: data,
            locked_aspect_ratio: !no_aspect,
            is_grayscale: false,
            inverted: false,
            rotation: Rotation::Deg0,
        }
    }

    /// The stored pixel at column `x` of row `y`.
    pub fn get_pixel(&self, x: usize, y: usize) -> (p: Pixel)
        requires
            self.wf(),
            x < self.width,
            y < self.height,
        ensures
            p == self.pixel_at(x as int, y as int),
    {
        let n = self.image_data.len();
        proof {
            lemma_index_in_grid(x as int, y as int, self.width as int, self.height as int);
        }
        self.image_data[y * self.width as usize + x]
    }

    /// Width and height as displayed: swapped at 90 and 270 degrees.
    pub fn get_effective_dimensions(&self) -> (d: (u32, u32))
        ensures
            d.0 == self.eff_width(),
            d.1 == self.eff_height(),
    {
        match self.rotation {
            Rotation::Deg90 | Rotation::Deg270 => (self.height, self.width),
            _ => (self.width, self.height),
        }
    }

    /// Maps displayed coordinates to stored coordinates.
    pub fn apply_rotation_to_coords(&self, x: usize, y: usize) -> (c: (usize, usize))
        requires
            x < self.eff_width(),
            y < self.eff_height(),
        ensures
            c.0 == rotated_coords(
                self.width as int,
                self.height as int,
                self.rotation,
                x as int,
                y as int,
            ).0,
            c.1 == rotated_coords(
                self.width as int,
                self.height as int,
                self.rotation,
                x as int,
                y as int,
            ).1,
            c.0 < self.width,
            c.1 < self.height,
    {
        let w = self.width as usize;
        let h = self.height as usize;
        match self.rotation {
            Rotation::Deg0 => (x, y),
            Rotation::Deg90 => (y, h - 1 - x),
            Rotation::Deg180 => (w - 1 - x, h - 1 - y),
            Rotation::Deg270 => (w - 1 - y, x),
        }
    }

    /// The stored pixel shown at displayed position `(x, y)`.
    pub fn get_rotated_pixel(&self, x: usize, y: usize) -> (p: Pixel)
        requires
            self.wf(),
            x < self.eff_width(),
            y < self.eff_height(),
        ensures
            p == self.rotated_pixel_at(x as int, y as int),
    {
        let (rx, ry) = self.apply_rotation_to_coords(x, y);
        self.get_pixel(rx, ry)
    }
}

/// A cell of a `w` by `h` grid has a row-major index below `w * h`.
pub proof fn lemma_index_in_grid(x: int, y: int, w: int, h: int)
    requires
        0 <= x < w,
        0 <= y < h,
    ensures
        0 <= y * w + x < w * h,
{
    assert(y * w + x < w * h) by (nonlinear_arith)
        requires 0 <= x < w, 0 <= y < h;
    assert(0 <= y * w) by (nonlinear_arith)
        requires 0 <= x < w, 0 <= y;
}

} // verus!
