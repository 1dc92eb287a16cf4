use vstd::prelude::*;

use crate::two_dimensional::TwoDimensional;

verus! {

/// A `width` x `height` buffer of pixels, stored row by row from the top-left corner.
pub struct Canvas<P> {
    pub width: usize,
    pub height: usize,
    pub pixels: Vec<P>,
}

/// Where pixel `(x, y)` sits in a row-major buffer that is `width` pixels wide.
pub open spec fn pixel_index(width: int, x: int, y: int) -> int {
    y * width + x
}

/// Pixel indices of a grid are in bounds, and two distinct pixels never share one.
pub proof fn lemma_pixel_index(width: int, height: int, x: int, y: int, a: int, b: int)
    requires
        0 <= x < width,
        0 <= y < height,
        0 <= a < width,
        0 <= b < height,
    ensures
        0 <= pixel_index(width, x, y) < width * height,
        pixel_index(width, x, y) == pixel_index(width, a, b) ==> x == a && y == b,
{
    assert(0 <= y * width + x < width * height) by (nonlinear_arith)
        requires
            0 <= x < width,
            0 <= y < height,
    ;
    assert(y * width + x == b * width + a ==> y == b) by (nonlinear_arith)
        requires
            0 <= x < width,
            0 <= a < width,
            0 <= y,
            0 <= b,
    ;
}

impl<P> Canvas<P> {
    /// The buffer holds exactly one pixel for each cell of the grid.
    pub open spec fn wf(&self) -> bool {
        self.pixels@.len() == self.width * self.height
    }

    /// Whether `(x, y)` is a cell of the grid.
    pub open spec fn in_bounds(&self, x: int, y: int) -> bool {
        0 <= x < self.width && 0 <= y < self.height
    }

    /// The pixel at column `x` of row `y`.
    pub open spec fn pixel(&self, x: int, y: int) -> P {
        self.pixels@[pixel_index(self.width as int, x, y)]
    }

    /// Replaces the pixel at `(x, y)` with `c`; the others stay as they are.
    pub fn write_pixel(&mut self, x: usize, y: usize, c: P)
        requires
            old(self).wf(),
            old(self).in_bounds(x as int, y as int),
        ensures
            final(self).wf(),
            final(self).width == old(self).width,
            final(self).height == old(self).height,
            final(self).pixels@ == old(self).pixels@.update(
                pixel_index(old(self).width as int, x as int, y as int),
                c,
            ),
            final(self).pixel(x as int, y as int) == c,
            forall|a: int, b: int|
                #![trigger final(self).pixel(a, b)]
                old(self).in_bounds(a, b) && (a != x || b != y) ==> final(self).pixel(a, b)
                    == old(self).pixel(a, b),
    {
        let index = self.get_pixel_index(x, y);
        self.pixels.set(index, c);
        proof {
            assert forall|a: int, b: int|
                #![trigger self.pixel(a, b)]
                old(self).in_bounds(a, b) && (a != x || b != y) implies self.pixel(a, b) == old(
                self,
            ).pixel(a, b) by {
                lemma_pixel_index(self.width as int, self.height as int, a, b, x as int, y as int);
            }
        }
    }

    /// Where pixel `(x, y)` sits in the buffer.
    fn get_pixel_index(&self, x: usize, y: usize) -> (r: usize)
        requires
            self.wf(),
            self.in_bounds(x as int, y as int),
        ensures
            r == pixel_index(self.width as int, x as int, y as int),
            r < self.pixels@.len(),
    {
        let n = self.pixels.len();
        proof {
            lemma_pixel_index(
                self.width as int,
                self.height as int,
                x as int,
                y as int,
                x as int,
                y as int,
            );
            assert(y * self.width <= y * self.width + x);
        }
        y * self.width + x
    }
}

impl<P: Copy> Canvas<P> {
    /// A `width` x `height` canvas with every pixel set to `fill`.
    pub fn new(width: usize, height: usize, fill: P) -> (r: Self)
        requires
            width * height <= usize::MAX,
        ensures
            r.wf(),
            r.width == width,
            r.height == height,
            forall|x: int, y: int| #[trigger] r.in_bounds(x, y) ==> r.pixel(x, y) == fill,
    {
        let n: usize = width * height;
        let mut pixels: Vec<P> = Vec::new();
        let mut i: usize = 0;
        while i < n
            invariant
                i <= n,
                pixels@.len() == i,
                forall|k: int| 0 <= k < i ==> pixels@[k] == fill,
            decreases n - i,
        {
            pixels.push(fill);
            i = i + 1;
        }
        let r = Canvas { width, height, pixels };
        proof {
            assert forall|x: int, y: int| #[trigger] r.in_bounds(x, y) implies r.pixel(x, y)
                == fill by {
                lemma_pixel_index(width as int, height as int, x, y, x, y);
            }
        }
        r
    }

    /// The pixel at column `x` of row `y`.
    pub fn pixel_at(&self, x: usize, y: usize) -> (r: P)
        requires
            self.wf(),
            self.in_bounds(x as int, y as int),
        ensures
            r == self.pixel(x as int, y as int),
    {
        self.pixels[self.get_pixel_index(x, y)]
    }
}

impl<P> TwoDimensional for Canvas<P> {
    open spec fn spec_width(&self) -> nat {
        self.width as nat
    }

    open spec fn spec_height(&self) -> nat {
        self.height as nat
    }

    fn width(&self) -> (r: usize) {
        self.width
    }

    fn height(&self) -> (r: usize) {
        self.height
    }
}

} // verus!
