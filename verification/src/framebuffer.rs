//! Pixel framebuffer: a row-major buffer of packed colors together with the
//! background color and the current draw color. Every write is
//! bounds-checked; a write outside the buffer is a no-op, never a fault.

use vstd::prelude::*;

use crate::units::MAX_SIDE;

verus! {

/// Index of the pixel `(x, y)` in a row-major buffer `w` pixels wide.
pub open spec fn rm_index(w: int, x: int, y: int) -> int {
    y * w + x
}

/// A `width` x `height` pixel buffer, row-major with the origin at the top
/// left, plus the instance-local background and current draw colors.
pub struct Framebuffer {
    width: usize,
    height: usize,
    background_color: u32,
    current_color: u32,
    buffer: Vec<u32>,
}

impl Framebuffer {
    /// Width in pixels.
    pub closed spec fn spec_width(self) -> int {
        self.width as int
    }

    /// Height in pixels.
    pub closed spec fn spec_height(self) -> int {
        self.height as int
    }

    /// Background color used by `clear`.
    pub closed spec fn spec_background(self) -> u32 {
        self.background_color
    }

    /// Current draw color used by `point`.
    pub closed spec fn spec_color(self) -> u32 {
        self.current_color
    }

    /// The pixel contents, row-major.
    pub closed spec fn pixels(self) -> Seq<u32> {
        self.buffer@
    }

    /// Index of pixel `(x, y)` in the row-major buffer.
    pub open spec fn pixel_index(self, x: int, y: int) -> int {
        rm_index(self.spec_width(), x, y)
    }

    /// `(x, y)` lies inside the buffer.
    pub open spec fn in_bounds(self, x: int, y: int) -> bool {
        0 <= x < self.spec_width() && 0 <= y < self.spec_height()
    }

    /// Well-formed: positive bounded dimensions and a fully allocated buffer.
    pub open spec fn wf(self) -> bool {
        &&& 1 <= self.spec_width() <= MAX_SIDE
        &&& 1 <= self.spec_height() <= MAX_SIDE
        &&& self.pixels().len() == self.spec_width() * self.spec_height()
    }

    /// The dimensions, background and contents of `self` agree with `other`;
    /// only the draw color may differ.
    pub open spec fn same_but_color(self, other: Framebuffer) -> bool {
        &&& self.spec_width() == other.spec_width()
        &&& self.spec_height() == other.spec_height()
        &&& self.spec_background() == other.spec_background()
        &&& self.pixels() == other.pixels()
    }

    /// A fresh buffer: all pixels start as the background color, which
    /// starts black; the draw color starts white.
    pub fn new(width: usize, height: usize) -> (fb: Framebuffer)
        requires
            1 <= width <= MAX_SIDE,
            1 <= height <= MAX_SIDE,
        ensures
            fb.wf(),
            fb.spec_width() == width,
            fb.spec_height() == height,
            fb.spec_background() == 0,
            fb.spec_color() == 0xFFFFFF,
            fb.pixels() =~= Seq::new((width * height) as nat, |k: int| 0u32),
    {
        proof {
            lemma_pixel_index_in_range(width as int, height as int, 0, 0);
        }
        let n = width * height;
        let mut buffer: Vec<u32> = Vec::new();
        let mut k: usize = 0;
        while k < n
            invariant
                k <= n,
                buffer@.len() == k,
                forall|i: int| 0 <= i < k ==> buffer@[i] == 0u32,
            decreases n - k,
        {
            buffer.push(0u32);
            k = k + 1;
        }
        Framebuffer { width, height, background_color: 0, current_color: 0xFFFFFF, buffer }
    }

    /// Width in pixels.
    pub fn width(&self) -> (w: usize)
        ensures
            w == self.spec_width(),
    {
        self.width
    }

    /// Height in pixels.
    pub fn height(&self) -> (h: usize)
        ensures
            h == self.spec_height(),
    {
        self.height
    }

    /// The background color.
    pub fn background_color(&self) -> (c: u32)
        ensures
            c == self.spec_background(),
    {
        self.background_color
    }

    /// The current draw color.
    pub fn current_color(&self) -> (c: u32)
        ensures
            c == self.spec_color(),
    {
        self.current_color
    }

    /// Borrow the packed pixel buffer, for handing a completed frame to a
    /// presentation layer.
    pub fn buffer(&self) -> (b: &Vec<u32>)
        ensures
            b@ == self.pixels(),
    {
        &self.buffer
    }

    /// Read the pixel at `(x, y)`.
    pub fn get_pixel(&self, x: usize, y: usize) -> (c: u32)
        requires
            self.wf(),
            self.in_bounds(x as int, y as int),
        ensures
            c == self.pixels()[self.pixel_index(x as int, y as int)],
    {
        proof {
            lemma_pixel_index_in_range(self.spec_width(), self.spec_height(), x as int, y as int);
        }
        self.buffer[y * self.width + x]
    }

    /// Set the current draw color; nothing else changes.
    pub fn set_current_color(&mut self, color: u32)
        ensures
            final(self).spec_color() == color,
            final(self).same_but_color(*old(self)),
    {
        self.current_color = color;
    }

    /// Set the background color; nothing else changes.
    pub fn set_background_color(&mut self, color: u32)
        ensures
            final(self).spec_background() == color,
            final(self).spec_width() == old(self).spec_width(),
            final(self).spec_height() == old(self).spec_height(),
            final(self).spec_color() == old(self).spec_color(),
            final(self).pixels() == old(self).pixels(),
    {
        self.background_color = color;
    }

    /// Set every pixel to the background color; dimensions and colors are
    /// untouched.
    pub fn clear(&mut self)
        requires
            old(self).wf(),
        ensures
            final(self).wf(),
            final(self).spec_width() == old(self).spec_width(),
            final(self).spec_height() == old(self).spec_height(),
            final(self).spec_background() == old(self).spec_background(),
            final(self).spec_color() == old(self).spec_color(),
            final(self).pixels() =~= Seq::new(
                old(self).pixels().len(),
                |k: int| old(self).spec_background(),
            ),
    {
        let n = self.buffer.len();
        let bg = self.background_color;
        let mut k: usize = 0;
        while k < n
            invariant
                k <= n,
                self.buffer@.len() == n,
                self.width == old(self).width,
                self.height == old(self).height,
                self.background_color == old(self).background_color,
                self.current_color == old(self).current_color,
                bg == old(self).background_color,
                forall|i: int| 0 <= i < k ==> self.buffer@[i] == bg,
            decreases n - k,
        {
            self.buffer[k] = bg;
            k = k + 1;
        }
    }

    /// Write the current draw color at `(x, y)` if it lies inside the
    /// buffer; outside, nothing at all changes.
    pub fn point(&mut self, x: usize, y: usize)
        requires
            old(self).wf(),
        ensures
            final(self).wf(),
            final(self).spec_width() == old(self).spec_width(),
            final(self).spec_height() == old(self).spec_height(),
            final(self).spec_background() == old(self).spec_background(),
            final(self).spec_color() == old(self).spec_color(),
            old(self).in_bounds(x as int, y as int) ==> final(self).pixels() =~= old(
                self,
            ).pixels().update(
                old(self).pixel_index(x as int, y as int),
                old(self).spec_color(),
            ),
            !old(self).in_bounds(x as int, y as int) ==> *final(self) == *old(self),
    {
        if x < self.width && y < self.height {
            proof {
                lemma_pixel_index_in_range(
                    self.spec_width(),
                    self.spec_height(),
                    x as int,
                    y as int,
                );
            }
            let idx = y * self.width + x;
            let c = self.current_color;
            self.buffer[idx] = c;
        }
    }
}

/// A row-major index of an in-bounds pixel lies inside the buffer, and for
/// the bounded dimensions this crate accepts, both fit comfortably in a
/// 32-bit `usize`.
pub proof fn lemma_pixel_index_in_range(w: int, h: int, x: int, y: int)
    by (nonlinear_arith)
    requires
        0 <= x < w <= 16384,
        0 <= y < h <= 16384,
    ensures
        0 <= y * w + x < w * h,
        w * h <= 0x1000_0000,
{
}

/// Reading any in-bounds pixel right after a `clear` gives the background
/// color, uniformly: `pre` is the buffer handed to `clear` and `post` what
/// its contract leaves behind.
pub proof fn lemma_clear_reads_background(pre: Framebuffer, post: Framebuffer, x: int, y: int)
    requires
        pre.wf(),
        post.spec_width() == pre.spec_width(),
        post.spec_height() == pre.spec_height(),
        post.pixels() =~= Seq::new(pre.pixels().len(), |k: int| pre.spec_background()),
        pre.in_bounds(x, y),
    ensures
        post.pixels()[post.pixel_index(x, y)] == pre.spec_background(),
{
    lemma_pixel_index_in_range(pre.spec_width(), pre.spec_height(), x, y);
}

/// What one in-bounds `point` write does, coordinate-wise: the written
/// pixel holds the draw color, every other in-bounds coordinate is
/// untouched.
pub proof fn lemma_point_update(pre: Framebuffer, post: Framebuffer, x: int, y: int)
    requires
        pre.wf(),
        pre.in_bounds(x, y),
        post.spec_width() == pre.spec_width(),
        post.spec_height() == pre.spec_height(),
        post.pixels() =~= pre.pixels().update(pre.pixel_index(x, y), pre.spec_color()),
    ensures
        post.pixels()[post.pixel_index(x, y)] == pre.spec_color(),
        forall|px: int, py: int|
            #![trigger rm_index(pre.spec_width(), px, py)]
            pre.in_bounds(px, py) && !(px == x && py == y) ==> post.pixels()[post.pixel_index(
                px,
                py,
            )] == pre.pixels()[pre.pixel_index(px, py)],
{
    lemma_pixel_index_in_range(pre.spec_width(), pre.spec_height(), x, y);
    assert forall|px: int, py: int|
        #![trigger rm_index(pre.spec_width(), px, py)]
        pre.in_bounds(px, py) && !(px == x && py == y) implies post.pixels()[post.pixel_index(
        px,
        py,
    )] == pre.pixels()[pre.pixel_index(px, py)] by {
        lemma_pixel_index_in_range(pre.spec_width(), pre.spec_height(), px, py);
        if post.pixel_index(px, py) == pre.pixel_index(x, y) {
            lemma_pixel_index_injective(pre.spec_width(), px, py, x, y);
        }
    }
}

/// Distinct in-bounds pixel coordinates have distinct row-major indices:
/// a write through one coordinate pair can never reach another.
pub proof fn lemma_pixel_index_injective(w: int, x1: int, y1: int, x2: int, y2: int)
    by (nonlinear_arith)
    requires
        0 <= x1 < w,
        0 <= x2 < w,
        0 <= y1,
        0 <= y2,
        y1 * w + x1 == y2 * w + x2,
    ensures
        x1 == x2 && y1 == y2,
{
}

} // verus!
