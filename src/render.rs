use vstd::prelude::*;

use itertools::Itertools;
use rayon::iter::{IndexedParallelIterator, IntoParallelRefIterator, ParallelIterator};
use vstd::layout::size_of;

use crate::canvas::{lemma_pixel_index, pixel_index, Canvas};

verus! {

/// Whether `n` values of type `V` fit in one `Vec` (at most `isize::MAX` bytes).
pub open spec fn fits_in_vec<V>(n: int) -> bool {
    n * size_of::<V>() <= isize::MAX
}

/// Whether a `width` x `height` render with pixels of type `P` fits in memory: the
/// grid's coordinates and its pixels each fit in a `Vec`.
pub open spec fn render_fits<P>(width: int, height: int) -> bool {
    &&& width * height <= usize::MAX
    &&& fits_in_vec::<(usize, usize)>(width * height)
    &&& fits_in_vec::<P>(width * height)
}

/// Every cell of a `width` x `height` grid, column by column: entry `i` is
/// `(i / height, i % height)`.
pub open spec fn grid_cells(width: nat, height: nat) -> Seq<(usize, usize)> {
    Seq::new(width * height, |i: int| ((i / height as int) as usize, (i % height as int) as usize))
}

/// Relies on itertools' `cartesian_product`: `(0..width).cartesian_product(0..height)`
/// yields each `x` below `width` with each `y` below `height`, all `y` for one `x`
/// before the next `x`.
#[verifier::external_body]
fn pixel_grid(width: usize, height: usize) -> (r: Vec<(usize, usize)>)
    requires
        width * height <= usize::MAX,
        fits_in_vec::<(usize, usize)>(width * height),
    ensures
        r@ == grid_cells(width as nat, height as nat),
{
    (0..width).cartesian_product(0..height).collect()
}

/// Relies on rayon's `par_iter().map(f).collect_into_vec(..)`: `f` is applied to the
/// items on rayon's thread pool, and the result for item `i` lands at position `i`.
#[verifier::external_body]
fn par_map<T: Sync, P: Send, F: Fn(&T) -> P + Sync + Send>(items: &Vec<T>, f: &F) -> (r: Vec<P>)
    requires
        fits_in_vec::<P>(items@.len() as int),
        forall|i: int| 0 <= i < items@.len() ==> f.requires((&items@[i],)),
    ensures
        r@.len() == items@.len(),
        forall|i: int| 0 <= i < items@.len() ==> f.ensures((&items@[i],), r@[i]),
{
    let mut r = Vec::new();
    items.par_iter().map(f).collect_into_vec(&mut r);
    r
}

/// Renders a `width` x `height` canvas: `shade` gives the pixel at `(x, y)`. The
/// pixels are computed in parallel, each independently of the others, so the
/// canvas does not depend on the order in which they finish.
pub fn render_pixels<P: Copy + Send, F: Fn(&(usize, usize)) -> P + Sync + Send>(
    width: usize,
    height: usize,
    shade: &F,
) -> (r: Canvas<P>)
    requires
        render_fits::<P>(width as int, height as int),
        forall|x: usize, y: usize| x < width && y < height ==> shade.requires((&(x, y),)),
    ensures
        r.wf(),
        r.width == width,
        r.height == height,
        forall|x: int, y: int|
            #[trigger] r.in_bounds(x, y) ==> shade.ensures(
                (&(x as usize, y as usize),),
                r.pixel(x, y),
            ),
{
    let cells = pixel_grid(width, height);
    proof {
        assert forall|i: int| 0 <= i < cells@.len() implies shade.requires((&cells@[i],)) by {
            lemma_grid_cell(width as int, height as int, i);
        }
    }
    let colors = par_map(&cells, shade);
    // Lay the pixels out row by row; the cell of `(x, y)` is number `x * height + y`.
    let mut pixels: Vec<P> = Vec::new();
    let mut y: usize = 0;
    while y < height
        invariant
            y <= height,
            width * height <= usize::MAX,
            colors@.len() == width * height,
            cells@ == grid_cells(width as nat, height as nat),
            forall|i: int|
                0 <= i < cells@.len() ==> shade.ensures((&cells@[i],), #[trigger] colors@[i]),
            pixels@.len() == y * width,
            forall|a: int, b: int|
                0 <= a < width && 0 <= b < y ==> shade.ensures(
                    (&(a as usize, b as usize),),
                    #[trigger] pixels@[pixel_index(width as int, a, b)],
                ),
        decreases height - y,
    {
        let mut x: usize = 0;
        while x < width
            invariant
                y < height,
                x <= width,
                width * height <= usize::MAX,
            colors@.len() == width * height,
                cells@ == grid_cells(width as nat, height as nat),
                forall|i: int|
                    0 <= i < cells@.len() ==> shade.ensures((&cells@[i],), #[trigger] colors@[i]),
                pixels@.len() == y * width + x,
                forall|a: int, b: int|
                    (0 <= a < width && 0 <= b < y) || (0 <= a < x && b == y) ==> shade.ensures(
                        (&(a as usize, b as usize),),
                        #[trigger] pixels@[pixel_index(width as int, a, b)],
                    ),
            decreases width - x,
        {
            proof {
                lemma_cell_of(width as int, height as int, x as int, y as int);
                lemma_pixel_index(width as int, height as int, x as int, y as int, 0, 0);
            }
            let ghost before = pixels@;
            pixels.push(colors[x * height + y]);
            proof {
                assert forall|a: int, b: int|
                    (0 <= a < width && 0 <= b < y) || (0 <= a <= x && b == y) implies shade.ensures(
                    (&(a as usize, b as usize),),
                    #[trigger] pixels@[pixel_index(width as int, a, b)],
                ) by {
                    lemma_pixel_index(width as int, height as int, a, b, x as int, y as int);
                    if a != x || b != y {
                        assert(pixel_index(width as int, a, b) < before.len()) by {
                            lemma_pixel_index(width as int, y as int + 1, a, b, x as int, y as int);
                            if b < y {
                                lemma_row_before(width as int, a, b, y as int);
                            }
                        }
                    }
                }
            }
            x = x + 1;
        }
        proof {
            assert((y + 1) * width == y * width + width) by (nonlinear_arith);
        }
        y = y + 1;
    }
    let r = Canvas { width, height, pixels };
    proof {
        assert(pixels@.len() == width * height) by {
            assert(y == height);
        }
    }
    r
}

/// Cell `i` of the grid lies inside it.
proof fn lemma_grid_cell(width: int, height: int, i: int)
    requires
        0 <= width,
        0 <= height,
        0 <= i < width * height,
    ensures
        grid_cells(width as nat, height as nat)[i].0 < width,
        grid_cells(width as nat, height as nat)[i].1 < height,
{
    assert(height > 0) by (nonlinear_arith)
        requires
            0 <= i < width * height,
            0 <= width,
    ;
    assert(i / height < width) by (nonlinear_arith)
        requires
            0 <= i < width * height,
            0 < height,
    ;
}

/// Pixel `(x, y)` is cell number `x * height + y` of the grid.
proof fn lemma_cell_of(width: int, height: int, x: int, y: int)
    requires
        0 <= x < width,
        0 <= y < height,
        width * height <= usize::MAX,
    ensures
        0 <= x * height + y < width * height,
        x * height + y <= usize::MAX,
        grid_cells(width as nat, height as nat)[x * height + y] == (x as usize, y as usize),
{
    assert(0 <= x * height + y < width * height) by (nonlinear_arith)
        requires
            0 <= x < width,
            0 <= y < height,
    ;
    vstd::arithmetic::div_mod::lemma_fundamental_div_mod_converse(x * height + y, height, x, y);
}

/// A pixel of an earlier row comes before every pixel of row `y`.
proof fn lemma_row_before(width: int, a: int, b: int, y: int)
    requires
        0 <= a < width,
        0 <= b < y,
    ensures
        pixel_index(width, a, b) < y * width,
{
    assert(b * width + a < y * width) by (nonlinear_arith)
        requires
            0 <= a < width,
            0 <= b < y,
    ;
}

} // verus!
