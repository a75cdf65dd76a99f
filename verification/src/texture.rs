//! A wall or floor texture: an immutable, randomly indexable grid of
//! packed colors, decoded by an outside asset loader and validated here
//! once before use.

use vstd::prelude::*;

use crate::units::MAX_SIDE;

verus! {

/// A `width` x `height` pixel grid, row-major, each entry a packed color.
pub struct Texture {
    width: usize,
    height: usize,
    pixels: Vec<u32>,
}

impl Texture {
    /// Width in pixels.
    pub closed spec fn spec_width(self) -> int {
        self.width as int
    }

    /// Height in pixels.
    pub closed spec fn spec_height(self) -> int {
        self.height as int
    }

    /// The pixel contents, row-major.
    pub closed spec fn pixels(self) -> Seq<u32> {
        self.pixels@
    }

    /// Well-formed: positive bounded dimensions, fully backed by pixels.
    pub open spec fn wf(self) -> bool {
        &&& 1 <= self.spec_width() <= MAX_SIDE
        &&& 1 <= self.spec_height() <= MAX_SIDE
        &&& self.pixels().len() == self.spec_width() * self.spec_height()
    }

    /// The color at `(x, y)`.
    pub open spec fn pixel_at(self, x: int, y: int) -> u32 {
        self.pixels()[y * self.spec_width() + x]
    }

    /// Build a texture from decoded pixels. Returns `None` exactly when
    /// the dimensions are empty, beyond the accepted bound, or do not
    /// match the pixel count.
    pub fn from_pixels(width: usize, height: usize, pixels: Vec<u32>) -> (t: Option<Texture>)
        ensures
            match t {
                Some(t) => {
                    &&& t.wf()
                    &&& t.spec_width() == width
                    &&& t.spec_height() == height
                    &&& t.pixels() == pixels@
                },
                None => {
                    ||| width == 0
                    ||| width > MAX_SIDE
                    ||| height == 0
                    ||| height > MAX_SIDE
                    ||| pixels@.len() != width * height
                },
            },
    {
        if width == 0 || width > MAX_SIDE || height == 0 || height > MAX_SIDE {
            return None;
        }
        proof {
            crate::framebuffer::lemma_pixel_index_in_range(width as int, height as int, 0, 0);
        }
        if pixels.len() != width * height {
            return None;
        }
        Some(Texture { width, height, pixels })
    }

    /// Width in pixels.
    pub fn width(&self) -> (w: usize)
        ensures
            w == self.spec_width(),
    {
        self.width
    }

    /// Height in pixels.
    pub fn height(&self) -> (h: usize)
        ensures
            h == self.spec_height(),
    {
        self.height
    }

    /// Read the pixel at `(x, y)`.
    pub fn pixel(&self, x: usize, y: usize) -> (c: u32)
        requires
            self.wf(),
            x < self.spec_width(),
            y < self.spec_height(),
        ensures
            c == self.pixel_at(x as int, y as int),
    {
        proof {
            crate::framebuffer::lemma_pixel_index_in_range(
                self.spec_width(),
                self.spec_height(),
                x as int,
                y as int,
            );
        }
        self.pixels[y * self.width + x]
    }
}

} // verus!
