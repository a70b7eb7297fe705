//! Texture lookups: an 8-bit RGB image buffer with wrap-around addressing,
//! and the checker pattern's parity rule.

use vstd::prelude::*;

verus! {

/// An RGB image: texels in row-major order, each a `[red, green, blue]`
/// byte triple.  Lookups wrap around at the image's edges, so any
/// coordinate addresses some texel of a well-formed image.
pub struct Image {
    width: usize,
    height: usize,
    data: Vec<[u8; 3]>,
}

impl Image {
    /// Width of the texel grid.
    pub closed spec fn spec_width(self) -> usize {
        self.width
    }

    /// Height of the texel grid.
    pub closed spec fn spec_height(self) -> usize {
        self.height
    }

    /// The stored texels, row-major.
    pub closed spec fn texels(self) -> Seq<[u8; 3]> {
        self.data@
    }

    /// A usable image is non-degenerate and holds a texel for every grid
    /// cell.
    pub open spec fn wf(self) -> bool {
        &&& 0 < self.spec_width()
        &&& 0 < self.spec_height()
        &&& self.spec_width() * self.spec_height() <= self.texels().len()
    }

    pub fn new(width: usize, height: usize, data: Vec<[u8; 3]>) -> (r: Image)
        ensures
            r.spec_width() == width,
            r.spec_height() == height,
            r.texels() == data@,
    {
        Image { width, height, data }
    }

    pub fn width(&self) -> (r: usize)
        ensures
            r == self.spec_width(),
    {
        self.width
    }

    pub fn height(&self) -> (r: usize)
        ensures
            r == self.spec_height(),
    {
        self.height
    }

    /// How many texels are stored.
    pub fn texel_count(&self) -> (r: usize)
        ensures
            r == self.texels().len(),
    {
        self.data.len()
    }

    /// Row-major position of the texel addressed by `(x, y)` once both
    /// coordinates have wrapped around the image's edges.
    pub open spec fn texel_index(self, x: int, y: int) -> int {
        x % (self.spec_width() as int) + (y % (self.spec_height() as int)) * (
        self.spec_width() as int)
    }

    /// The texel addressed by `(x, y)`; coordinates wrap at the edges.
    pub fn texel(&self, x: usize, y: usize) -> (r: [u8; 3])
        requires
            self.wf(),
        ensures
            r == self.texels()[self.texel_index(x as int, y as int)],
    {
        let ix = x % self.width;
        let iy = y % self.height;
        let n = self.data.len();
        proof {
            lemma_row_major_in_bounds(ix as int, iy as int, self.width as int, self.height as int);
            assert(ix + iy * self.width < self.spec_width() * self.spec_height());
        }
        self.data[ix + iy * self.width]
    }
}

/// A row-major index computed from in-range coordinates stays below the
/// grid's area.
proof fn lemma_row_major_in_bounds(ix: int, iy: int, w: int, h: int)
    by (nonlinear_arith)
    requires
        0 <= ix < w,
        0 <= iy < h,
    ensures
        0 <= ix + iy * w < w * h,
{
}

/// Which of the checker pattern's two materials a surface point selects.
///
/// The pattern divides the unit UV square into a 10-by-10 grid; `u10` and
/// `v10` are the floors of ten times the surface's UV coordinates.  The
/// result is true on the cells whose coordinate sum is even, which hold
/// the pattern's `even` material; the odd cells hold the other.
pub fn checker_even(u10: i64, v10: i64) -> (r: bool)
    requires
        -0x2000_0000_0000_0000 <= u10 <= 0x2000_0000_0000_0000,
        -0x2000_0000_0000_0000 <= v10 <= 0x2000_0000_0000_0000,
    ensures
        r == ((u10 + v10) % 2 == 0),
{
    (u10 + v10) % 2 == 0
}

} // verus!
