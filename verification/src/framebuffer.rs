//! The frame buffer: the pixels of one image, row by row.

use vstd::prelude::*;
use crate::material::Color;

verus! {

/// An image of `width` by `height` pixels, with the colours to clear it and
/// to draw into it.
#[derive(Debug)]
pub struct Framebuffer {
    pub width: i32,
    pub height: i32,
    /// The pixels, row by row from the top.
    pub color_buffer: Vec<Color>,
    /// The colour that [`Framebuffer::clear`] fills the image with.
    pub background_color: Color,
    /// The colour that [`Framebuffer::set_pixel`] draws with.
    pub current_color: Color,
}

impl Framebuffer {
    /// The buffer holds one pixel for each position of the image.
    pub open spec fn well_formed(&self) -> bool {
        &&& self.width >= 0
        &&& self.height >= 0
        &&& self.color_buffer@.len() == self.width * self.height
    }

    /// `(x, y)` is a position of the image.
    pub open spec fn in_bounds(&self, x: int, y: int) -> bool {
        0 <= x < self.width && 0 <= y < self.height
    }

    /// The pixel in column `x` of row `y`.
    pub open spec fn pixel(&self, x: int, y: int) -> Color {
        self.color_buffer@[y * self.width + x]
    }

    /// An image of `width` by `height` black pixels, with black as background
    /// and white to draw with. A negative extent counts as zero.
    pub fn new(width: i32, height: i32) -> (fb: Framebuffer)
        ensures
            fb.well_formed(),
            fb.width == if width < 0 {
                0
            } else {
                width
            },
            fb.height == if height < 0 {
                0
            } else {
                height
            },
            forall|i: int|
                0 <= i < fb.color_buffer@.len() ==> fb.color_buffer@[i] == Color::spec_black(),
            fb.background_color == Color::spec_black(),
            fb.current_color == Color::spec_white(),
    {
        let w: i32 = if width < 0 {
            0
        } else {
            width
        };
        let h: i32 = if height < 0 {
            0
        } else {
            height
        };
        let mut color_buffer: Vec<Color> = Vec::new();
        let mut y: i32 = 0;
        while y < h
            invariant
                0 <= y <= h,
                0 <= w,
                color_buffer@.len() == y * w,
                forall|j: int| 0 <= j < color_buffer@.len() ==> color_buffer@[j] == Color::spec_black(),
            decreases h - y,
        {
            let mut x: i32 = 0;
            while x < w
                invariant
                    0 <= y < h,
                    0 <= x <= w,
                    color_buffer@.len() == y * w + x,
                    forall|j: int|
                        0 <= j < color_buffer@.len() ==> color_buffer@[j] == Color::spec_black(),
                decreases w - x,
            {
                color_buffer.push(Color::black());
                x = x + 1;
            }
            proof {
                assert((y + 1) * w == y * w + w) by (nonlinear_arith);
            }
            y = y + 1;
        }
        proof {
            assert(h * w == w * h) by (nonlinear_arith);
        }
        Framebuffer {
            width: w,
            height: h,
            color_buffer,
            background_color: Color::black(),
            current_color: Color::white(),
        }
    }

    /// The place in the buffer of the pixel at `(x, y)`.
    fn position(&self, x: i32, y: i32) -> (index: usize)
        requires
            self.well_formed(),
            self.in_bounds(x as int, y as int),
        ensures
            index == y * self.width + x,
            index < self.color_buffer@.len(),
    {
        let len: usize = self.color_buffer.len();
        proof {
            assert(self.width * self.height == len);
            lemma_position_in_buffer(x as int, y as int, self.width as int, self.height as int);
            assert((y as usize) as int * (self.width as usize) as int == y * self.width)
                by (nonlinear_arith)
                requires
                    (y as usize) as int == y as int,
                    (self.width as usize) as int == self.width as int,
            ;
        }
        (y as usize) * (self.width as usize) + (x as usize)
    }

    /// Fills the image with the background colour.
    pub fn clear(&mut self)
        ensures
            final(self).width == old(self).width,
            final(self).height == old(self).height,
            final(self).background_color == old(self).background_color,
            final(self).current_color == old(self).current_color,
            final(self).color_buffer@.len() == old(self).color_buffer@.len(),
            forall|i: int|
                0 <= i < final(self).color_buffer@.len() ==> final(self).color_buffer@[i] == old(
                    self,
                ).background_color,
    {
        let n: usize = self.color_buffer.len();
        let mut i: usize = 0;
        while i < n
            invariant
                i <= n,
                self.color_buffer@.len() == n,
                self.width == old(self).width,
                self.height == old(self).height,
                self.background_color == old(self).background_color,
                self.current_color == old(self).current_color,
                forall|j: int| 0 <= j < i ==> self.color_buffer@[j] == self.background_color,
            decreases n - i,
        {
            let c: Color = self.background_color;
            self.color_buffer.set(i, c);
            i = i + 1;
        }
    }

    /// Draws the pixel at `(x, y)` in the current colour; does nothing if
    /// `(x, y)` is no position of the image.
    pub fn set_pixel(&mut self, x: i32, y: i32)
        requires
            old(self).well_formed(),
        ensures
            final(self).well_formed(),
            final(self).width == old(self).width,
            final(self).height == old(self).height,
            final(self).background_color == old(self).background_color,
            final(self).current_color == old(self).current_color,
            old(self).in_bounds(x as int, y as int) ==> final(self).color_buffer@ == old(
                self,
            ).color_buffer@.update(y * old(self).width + x, old(self).current_color),
            !old(self).in_bounds(x as int, y as int) ==> final(self).color_buffer@ == old(
                self,
            ).color_buffer@,
    {
        if x >= 0 && x < self.width && y >= 0 && y < self.height {
            let index: usize = self.position(x, y);
            let c: Color = self.current_color;
            self.color_buffer.set(index, c);
        }
    }

    /// The colour of the pixel at `(x, y)`; `None` if `(x, y)` is no position
    /// of the image.
    pub fn get_pixel_color(&self, x: i32, y: i32) -> (color: Option<Color>)
        requires
            self.well_formed(),
        ensures
            color == if self.in_bounds(x as int, y as int) {
                Some(self.pixel(x as int, y as int))
            } else {
                None
            },
    {
        if x >= 0 && x < self.width && y >= 0 && y < self.height {
            let index: usize = self.position(x, y);
            Some(self.color_buffer[index])
        } else {
            None
        }
    }

    /// Sets the colour that [`Framebuffer::clear`] fills the image with.
    pub fn set_background_color(&mut self, color: Color)
        ensures
            final(self).background_color == color,
            final(self).current_color == old(self).current_color,
            final(self).width == old(self).width,
            final(self).height == old(self).height,
            final(self).color_buffer@ == old(self).color_buffer@,
    {
        self.background_color = color;
    }

    /// Sets the colour that [`Framebuffer::set_pixel`] draws with.
    pub fn set_current_color(&mut self, color: Color)
        ensures
            final(self).current_color == color,
            final(self).background_color == old(self).background_color,
            final(self).width == old(self).width,
            final(self).height == old(self).height,
            final(self).color_buffer@ == old(self).color_buffer@,
    {
        self.current_color = color;
    }

}

/// A position of an image lies inside its buffer.
pub proof fn lemma_position_in_buffer(x: int, y: int, width: int, height: int)
    requires
        0 <= x < width,
        0 <= y < height,
    ensures
        0 <= y * width + x < width * height,
        0 <= y * width,
{
    assert(0 <= y * width && y * width + width <= height * width && height * width == width
        * height) by (nonlinear_arith)
        requires
            0 <= y < height,
            0 <= width,
    ;
}

} // verus!
