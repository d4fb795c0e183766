use vstd::prelude::*;

verus! {

/// One RGBA pixel: three 8-bit color channels and an 8-bit alpha channel.
/// Any non-zero alpha counts as fully opaque; alpha zero is fully
/// transparent. No blending of partial transparency takes place.
#[derive(Clone, Copy, Debug, PartialEq, Eq, Structural)]
pub struct Pixel {
    pub r: u8,
    pub g: u8,
    pub b: u8,
    pub a: u8,
}

/// The fully transparent pixel, used as the synthetic bottom half of the
/// last row of an odd-height image.
pub open spec fn spec_transparent() -> Pixel {
    Pixel { r: 0, g: 0, b: 0, a: 0 }
}

impl Pixel {
    pub fn new(r: u8, g: u8, b: u8, a: u8) -> (p: Pixel)
        ensures
            p == (Pixel { r, g, b, a }),
    {
        Pixel { r, g, b, a }
    }

    /// The fully transparent pixel.
    pub fn transparent() -> (p: Pixel)
        ensures
            p == spec_transparent(),
    {
        Pixel { r: 0, g: 0, b: 0, a: 0 }
    }
}

/// A decoded image: `width * height` pixels in row-major order, row 0 at
/// the top, column 0 at the left.
pub struct PixelGrid {
    pub width: usize,
    pub height: usize,
    pub pixels: Vec<Pixel>,
}

impl PixelGrid {
    /// A grid is well formed when it holds exactly one pixel per coordinate.
    pub open spec fn wf(self) -> bool {
        self.pixels@.len() == self.width * self.height
    }

    /// The pixel at column `x` of row `y`.
    pub open spec fn pixel_at(self, x: int, y: int) -> Pixel {
        self.pixels@[y * self.width + x]
    }

    /// Builds a grid from row-major pixel data; `None` exactly when the
    /// data length does not match the dimensions.
    pub fn new(width: usize, height: usize, pixels: Vec<Pixel>) -> (r: Option<PixelGrid>)
        ensures
            match r {
                Some(g) => {
                    &&& g.wf()
                    &&& g.width == width
                    &&& g.height == height
                    &&& g.pixels@ == pixels@
                },
                None => pixels@.len() != width * height,
            },
    {
        let len: usize = pixels.len();
        match width.checked_mul(height) {
            Some(n) => {
                if len == n {
                    Some(PixelGrid { width, height, pixels })
                } else {
                    None
                }
            },
            None => None,
        }
    }

    /// Returns the pixel at (`x`, `y`).
    pub fn get(&self, x: usize, y: usize) -> (p: Pixel)
        requires
            self.wf(),
            x < self.width,
            y < self.height,
        ensures
            p == self.pixel_at(x as int, y as int),
    {
        proof {
            assert(self.pixels.len() == self.pixels@.len());
            lemma_row_major_index(self.width as int, self.height as int, x as int, y as int);
        }
        self.pixels[y * self.width + x]
    }
}

/// Row-major indexing stays within a `width * height` buffer.
proof fn lemma_row_major_index(w: int, h: int, x: int, y: int)
    requires
        0 <= x < w,
        0 <= y < h,
    ensures
        0 <= y * w + x < w * h,
{
    assert(0 <= y * w + x < w * h) by (nonlinear_arith)
        requires
            0 <= x < w,
            0 <= y < h,
    ;
}

} // verus!
