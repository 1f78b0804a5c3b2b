//! The decoded source picture: a grid of colours in row-major order.

use vstd::prelude::*;
use crate::colour::Rgb;

verus! {

/// A `width` by `height` grid of colours. Row `y` occupies the pixels
/// `y * width .. (y + 1) * width`, top row first.
#[derive(Debug, Clone, PartialEq, Eq)]
pub struct Picture {
    pub width: u32,
    pub height: u32,
    pub pixels: Vec<Rgb>,
}

impl Picture {
    /// A picture is well formed when it holds one colour per pixel.
    pub open spec fn wf(&self) -> bool {
        self.pixels@.len() == self.width * self.height
    }

    /// The colour at column `x`, row `y`.
    pub open spec fn spec_pixel(&self, x: int, y: int) -> Rgb {
        self.pixels@[y * self.width + x]
    }

    /// Assembles a picture, or returns `None` when the number of pixels is not
    /// `width * height`.
    pub fn new(width: u32, height: u32, pixels: Vec<Rgb>) -> (picture: Option<Picture>)
        ensures
            picture is Some <==> pixels@.len() == width * height,
            picture matches Some(p) ==> p.wf() && p.width == width && p.height == height
                && p.pixels@ == pixels@,
    {
        assert(width * height <= u64::MAX) by (nonlinear_arith)
            requires
                width <= u32::MAX,
                height <= u32::MAX,
        ;
        let count: u64 = (width as u64) * (height as u64);
        if pixels.len() as u64 == count {
            Some(Picture { width, height, pixels })
        } else {
            None
        }
    }

    /// The colour at column `x`, row `y`.
    pub fn pixel(&self, x: u32, y: u32) -> (colour: Rgb)
        requires
            self.wf(),
            x < self.width,
            y < self.height,
        ensures
            colour == self.spec_pixel(x as int, y as int),
    {
        proof {
            lemma_cell_in_grid(self.width as int, self.height as int, x as int, y as int);
            assert(self.pixels@.len() == self.pixels.len());
        }
        let index: usize = (y as usize) * (self.width as usize) + (x as usize);
        self.pixels[index]
    }
}

/// A cell of a `width` by `height` grid has a row-major index inside the grid.
pub proof fn lemma_cell_in_grid(width: int, height: int, x: int, y: int)
    requires
        0 <= x < width,
        0 <= y < height,
    ensures
        0 <= y * width,
        y * width + x < width * height,
{
    assert(y * width <= (height - 1) * width) by (nonlinear_arith)
        requires
            0 <= y <= height - 1,
            0 <= width,
    ;
    assert((height - 1) * width + width == width * height) by (nonlinear_arith);
    assert(0 <= y * width) by (nonlinear_arith)
        requires
            0 <= y,
            0 <= width,
    ;
}

} // verus!
