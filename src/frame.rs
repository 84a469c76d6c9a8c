use vstd::prelude::*;

use crate::image::Image;
use crate::pixel::pack;
use crate::widgets::Toolbar;

verus! {

/// `v` reshaped to `n` cells: kept where it reaches, `fill` beyond.
pub open spec fn resized(v: Seq<u32>, n: int, fill: u32) -> Seq<u32> {
    Seq::new(n as nat, |i: int| if i < v.len() { v[i] } else { fill })
}

/// The logical canvas, row-major, with the toolbar strip that goes below it.
pub struct Frame {
    pub canvas_width: usize,
    pub canvas_height: usize,
    pub canvas_buffer: Vec<u32>,
    pub toolbar: Toolbar,
    pub bg_color: u32,
}

impl Frame {
    /// The buffer holds exactly `canvas_width * canvas_height` cells.
    pub open spec fn wf(&self) -> bool {
        self.canvas_buffer@.len() == self.canvas_width * self.canvas_height
    }

    /// A canvas showing the image's stored pixels as they are, with an empty toolbar.
    pub fn new(img: &Image, bg_color: u32) -> (f: Frame)
        requires
            img.wf(),
        ensures
            f.wf(),
            f.canvas_width == img.width,
            f.canvas_height == img.height,
            forall|i: int|
                0 <= i < f.canvas_buffer@.len() ==> #[trigger] f.canvas_buffer@[i] == pack(
                    img.image_data@[i].a,
                    img.image_data@[i].r,
                    img.image_data@[i].g,
                    img.image_data@[i].b,
                ),
            f.bg_color == bg_color,
            f.toolbar.wf(),
            f.toolbar.width == 0,
            !f.toolbar.button_pressed,
            f.toolbar.normal_caption@.len() == 0,
            f.toolbar.pressed_caption@.len() == 0,
    {
        let n = img.image_data.len();
        let mut buf: Vec<u32> = Vec::new();
        let mut i: usize = 0;
        while i < n
            invariant
                n == img.image_data@.len(),
                i <= n,
                buf@.len() == i,
                forall|j: int|
                    0 <= j < i ==> #[trigger] buf@[j] == pack(
                        img.image_data@[j].a,
                        img.image_data@[j].r,
                        img.image_data@[j].g,
                        img.image_data@[j].b,
                    ),
            decreases n - i,
        {
            buf.push(img.image_data[i].to_argb());
            i = i + 1;
        }
        Frame {
            canvas_width: img.width as usize,
            canvas_height: img.height as usize,
            canvas_buffer: buf,
            toolbar: Toolbar::new(0),
            bg_color,
        }
    }

    /// Changes the canvas's shape: cells past the new size are dropped and new
    /// cells take the background colour. Gives false, changing nothing, when the
    /// size is the same.
    pub fn resize(&mut self, new_width: usize, new_height: usize) -> (changed: bool)
        requires
            new_width * new_height <= usize::MAX,
        ensures
            changed == !(new_width == old(self).canvas_width && new_height
                == old(self).canvas_height),
            !changed ==> final(self).canvas_buffer@ == old(self).canvas_buffer@,
            changed ==> final(self).canvas_buffer@ == resized(
                old(self).canvas_buffer@,
                new_width * new_height,
                old(self).bg_color,
            ),
            final(self).canvas_width == new_width,
            final(self).canvas_height == new_height,
            final(self).bg_color == old(self).bg_color,
            final(self).toolbar == old(self).toolbar,
    {
        if new_width == self.canvas_width && new_height == self.canvas_height {
            return false;
        }
        self.canvas_width = new_width;
        self.canvas_height = new_height;
        let n: usize = new_width * new_height;
        if n <= self.canvas_buffer.len() {
            self.canvas_buffer.truncate(n);
            proof {
                assert(self.canvas_buffer@ =~= resized(
                    old(self).canvas_buffer@,
                    n as int,
                    old(self).bg_color,
                ));
            }
        } else {
            while self.canvas_buffer.len() < n
                invariant
                    n == new_width * new_height,
                    old(self).canvas_buffer@.len() <= self.canvas_buffer@.len() <= n,
                    forall|j: int|
                        0 <= j < self.canvas_buffer@.len() ==> #[trigger] self.canvas_buffer@[j]
                            == resized(old(self).canvas_buffer@, n as int, old(self).bg_color)[j],
                    self.bg_color == old(self).bg_color,
                    self.toolbar == old(self).toolbar,
                    self.canvas_width == new_width,
                    self.canvas_height == new_height,
                decreases n - self.canvas_buffer@.len(),
            {
                self.canvas_buffer.push(self.bg_color);
            }
            proof {
                assert(self.canvas_buffer@ =~= resized(
                    old(self).canvas_buffer@,
                    n as int,
                    old(self).bg_color,
                ));
            }
        }
        true
    }
}

} // verus!
