//! The image-plane driver's discrete skeleton.
//!
//! Rendering walks every pixel of a `width` by `height` plane, samples a
//! color for each, and writes the results into a grid.  The pixels are
//! independent, so the sampling may run in any order, on any number of
//! workers; what must not depend on that order is the finished image.
//! This module pins the three discrete pieces down: the enumeration of
//! pixel coordinates, the per-pixel seed for the sampling generator, and
//! the assembly of (row, column, value) results — produced in whatever
//! order the workers finished — into the final grid.

use vstd::prelude::*;

verus! {

use vstd::arithmetic::div_mod::lemma_fundamental_div_mod;
use vstd::arithmetic::div_mod::lemma_fundamental_div_mod_converse_div;
use vstd::arithmetic::div_mod::lemma_fundamental_div_mod_converse_mod;

/// Every pixel of a `width` by `height` plane, row by row: the `k`-th
/// entry is `(k / width, k % width)`, a (row, column) pair.
pub fn pixel_coords(width: usize, height: usize) -> (r: Vec<(usize, usize)>)
    requires
        width * height <= usize::MAX,
    ensures
        r@.len() == width * height,
        forall|k: int|
            0 <= k < r@.len() ==> (#[trigger] r@[k]).0 as int == k / (width as int) && r@[k].1
                as int == k % (width as int),
        forall|i: int, j: int|
            0 <= i < j < r@.len() ==> !((#[trigger] r@[i]).0 == (#[trigger] r@[j]).0 && r@[i].1
                == r@[j].1),
{
    let total = width * height;
    let mut out: Vec<(usize, usize)> = Vec::new();
    let mut k: usize = 0;
    while k < total
        invariant
            k <= total,
            total == width * height,
            out@.len() == k,
            forall|j: int|
                0 <= j < k ==> (#[trigger] out@[j]).0 as int == j / (width as int) && out@[j].1
                    as int == j % (width as int),
        decreases total - k,
    {
        let y = k / width;
        let x = k % width;
        out.push((y, x));
        k = k + 1;
    }
    proof {
        assert forall|i: int, j: int| 0 <= i < j < out@.len() implies !((#[trigger] out@[i]).0 == (
        #[trigger] out@[j]).0 && out@[i].1 == out@[j].1) by {
            lemma_fundamental_div_mod(i, width as int);
            lemma_fundamental_div_mod(j, width as int);
        }
    }
    out
}

/// The seed that pixel `(x, y)` hands its sampling generator.  Seeding
/// by coordinates — not by worker or by completion order — is what makes
/// a render reproducible.
pub fn pixel_seed(x: u64, y: u64) -> (r: u64)
    ensures
        r == x ^ y,
{
    x ^ y
}

/// The value that cell `(y, x)` of the assembled grid holds after the
/// results in `s` have been written in order: the last result addressed
/// to that cell, or `fill` if none is.
pub open spec fn grid_at<T>(s: Seq<(usize, usize, T)>, y: int, x: int, fill: T) -> T
    decreases s.len(),
{
    if s.len() == 0 {
        fill
    } else if s.last().0 as int == y && s.last().1 as int == x {
        s.last().2
    } else {
        grid_at(s.drop_last(), y, x, fill)
    }
}

/// Whether some result in `s` is addressed to cell `(y, x)`.
pub open spec fn covers<T>(s: Seq<(usize, usize, T)>, y: int, x: int) -> bool {
    exists|i: int| 0 <= i < s.len() && (#[trigger] s[i]).0 as int == y && s[i].1 as int == x
}

/// Whether no two results in `s` are addressed to the same cell.  A
/// render produces exactly one result per pixel, so its result list
/// satisfies this.
pub open spec fn cells_unique<T>(s: Seq<(usize, usize, T)>) -> bool {
    forall|i: int, j: int|
        0 <= i < j < s.len() ==> !((#[trigger] s[i]).0 == (#[trigger] s[j]).0 && s[i].1 == s[j].1)
}

/// Gather per-pixel results into a `height` by `width` grid of rows.
/// Cells that no result addresses hold `fill`; a cell addressed more
/// than once holds the result written last.
pub fn assemble<T: Copy>(
    width: usize,
    height: usize,
    fill: T,
    samples: &Vec<(usize, usize, T)>,
) -> (r: Vec<Vec<T>>)
    requires
        width * height <= usize::MAX,
        forall|i: int|
            0 <= i < samples@.len() ==> (#[trigger] samples@[i]).0 < height && samples@[i].1
                < width,
    ensures
        r@.len() == height,
        forall|y: int| 0 <= y < height ==> (#[trigger] r@[y])@.len() == width,
        forall|y: int, x: int|
            0 <= y < height && 0 <= x < width ==> (#[trigger] r@[y]@[x]) == grid_at(
                samples@,
                y,
                x,
                fill,
            ),
{
    let total = width * height;
    let mut flat: Vec<T> = Vec::new();
    let mut k: usize = 0;
    while k < total
        invariant
            k <= total,
            flat@.len() == k,
            forall|j: int| 0 <= j < k ==> #[trigger] flat@[j] == fill,
        decreases total - k,
    {
        flat.push(fill);
        k = k + 1;
    }
    assert(samples@.take(0) =~= Seq::<(usize, usize, T)>::empty());
    let ghost w = width as int;
    let mut s: usize = 0;
    while s < samples.len()
        invariant
            0 <= s <= samples@.len(),
            w == width as int,
            total == width * height,
            width * height <= usize::MAX,
            flat@.len() == total,
            forall|i: int|
                0 <= i < samples@.len() ==> (#[trigger] samples@[i]).0 < height && samples@[i].1
                    < width,
            forall|j: int|
                0 <= j < total ==> #[trigger] flat@[j] == grid_at(
                    samples@.take(s as int),
                    j / w,
                    j % w,
                    fill,
                ),
        decreases samples@.len() - s,
    {
        let (y, x, v) = samples[s];
        proof {
            lemma_cell_in_bounds(x as int, y as int, w, height as int);
        }
        let idx = x + y * width;
        flat[idx] = v;
        proof {
            let prev = samples@.take(s as int);
            let cur = samples@.take(s as int + 1);
            assert(cur =~= prev.push((y, x, v)));
            assert(cur.drop_last() =~= prev);
            lemma_fundamental_div_mod_converse_div(idx as int, w, y as int, x as int);
            lemma_fundamental_div_mod_converse_mod(idx as int, w, y as int, x as int);
            assert forall|j: int| 0 <= j < total implies #[trigger] flat@[j] == grid_at(
                cur,
                j / w,
                j % w,
                fill,
            ) by {
                lemma_fundamental_div_mod(j, w);
                if j == idx as int {
                    assert(flat@[j] == v);
                } else {
                    assert(j == w * (j / w) + j % w);
                    if j / w == y as int && j % w == x as int {
                        assert(j == w * (y as int) + (x as int));
                        assert(idx as int == (x as int) + (y as int) * w);
                        assert(w * (y as int) == (y as int) * w) by (nonlinear_arith);
                        assert(false);
                    }
                    assert(grid_at(cur, j / w, j % w, fill) == grid_at(prev, j / w, j % w, fill));
                }
            }
        }
        s = s + 1;
    }
    proof {
        assert(samples@.take(samples@.len() as int) =~= samples@);
    }
    let mut rows: Vec<Vec<T>> = Vec::new();
    let mut y: usize = 0;
    while y < height
        invariant
            y <= height,
            w == width as int,
            total == width * height,
            flat@.len() == total,
            rows@.len() == y,
            forall|a: int| 0 <= a < y ==> (#[trigger] rows@[a])@.len() == width,
            forall|a: int, b: int|
                0 <= a < y && 0 <= b < width ==> (#[trigger] rows@[a]@[b]) == flat@[a * w + b],
        decreases height - y,
    {
        let mut row: Vec<T> = Vec::new();
        let mut x: usize = 0;
        while x < width
            invariant
                x <= width,
                y < height,
                w == width as int,
                total == width * height,
                flat@.len() == total,
                row@.len() == x,
                forall|b: int| 0 <= b < x ==> #[trigger] row@[b] == flat@[y as int * w + b],
            decreases width - x,
        {
            proof {
                lemma_cell_in_bounds(x as int, y as int, w, height as int);
            }
            row.push(flat[x + y * width]);
            x = x + 1;
        }
        rows.push(row);
        y = y + 1;
    }
    proof {
        assert forall|yy: int, xx: int| 0 <= yy < height && 0 <= xx < width implies (
        #[trigger] rows@[yy]@[xx]) == grid_at(samples@, yy, xx, fill) by {
            lemma_cell_in_bounds(xx, yy, w, height as int);
            let j = yy * w + xx;
            lemma_fundamental_div_mod_converse_div(j, w, yy, xx);
            lemma_fundamental_div_mod_converse_mod(j, w, yy, xx);
        }
    }
    rows
}

/// A row-major cell index computed from in-range coordinates stays below
/// the grid's area.
proof fn lemma_cell_in_bounds(x: int, y: int, w: int, h: int)
    by (nonlinear_arith)
    requires
        0 <= x < w,
        0 <= y < h,
    ensures
        0 <= x + y * w < w * h,
        0 <= y * w + x < w * h,
{
}

/// A cell that no result addresses holds `fill`.
proof fn lemma_grid_at_uncovered<T>(s: Seq<(usize, usize, T)>, y: int, x: int, fill: T)
    requires
        !covers(s, y, x),
    ensures
        grid_at(s, y, x, fill) == fill,
    decreases s.len(),
{
    if s.len() > 0 {
        assert(!covers(s.drop_last(), y, x));
        lemma_grid_at_uncovered(s.drop_last(), y, x, fill);
    }
}

/// A covered cell holds a value that some result addressed to it carries.
proof fn lemma_grid_at_covered<T>(s: Seq<(usize, usize, T)>, y: int, x: int, fill: T)
    requires
        covers(s, y, x),
    ensures
        exists|i: int|
            0 <= i < s.len() && (#[trigger] s[i]).0 as int == y && s[i].1 as int == x && s[i].2
                == grid_at(s, y, x, fill),
    decreases s.len(),
{
    if s.last().0 as int == y && s.last().1 as int == x {
        assert(0 <= s.len() - 1 < s.len() && s[s.len() - 1].0 as int == y && s[s.len() - 1].1
            as int == x && s[s.len() - 1].2 == grid_at(s, y, x, fill));
    } else {
        let i = choose|i: int|
            0 <= i < s.len() && (#[trigger] s[i]).0 as int == y && s[i].1 as int == x;
        assert(s.drop_last()[i] == s[i]);
        lemma_grid_at_covered(s.drop_last(), y, x, fill);
        let j = choose|j: int|
            0 <= j < s.drop_last().len() && (#[trigger] s.drop_last()[j]).0 as int == y
                && s.drop_last()[j].1 as int == x && s.drop_last()[j].2 == grid_at(
                s.drop_last(),
                y,
                x,
                fill,
            );
        assert(s[j] == s.drop_last()[j]);
    }
}

/// No two results of a cell-unique list address one cell with different
/// values.
proof fn lemma_unique_cell_value<T>(
    s: Seq<(usize, usize, T)>,
    t1: (usize, usize, T),
    t2: (usize, usize, T),
)
    requires
        cells_unique(s),
        s.contains(t1),
        s.contains(t2),
        t1.0 == t2.0,
        t1.1 == t2.1,
    ensures
        t1.2 == t2.2,
{
    let i = choose|i: int| 0 <= i < s.len() && s[i] == t1;
    let j = choose|j: int| 0 <= j < s.len() && s[j] == t2;
    if i != j {
        assert(!(s[i].0 == s[j].0 && s[i].1 == s[j].1));
    }
}

/// The assembled image does not depend on the order in which per-pixel
/// results arrive: two result lists that hold the same results — at most
/// one per cell, as a render produces — fill every cell alike.
pub proof fn lemma_grid_order_independent<T>(
    a: Seq<(usize, usize, T)>,
    b: Seq<(usize, usize, T)>,
    y: int,
    x: int,
    fill: T,
)
    requires
        a.to_multiset() == b.to_multiset(),
        cells_unique(a),
        cells_unique(b),
    ensures
        grid_at(a, y, x, fill) == grid_at(b, y, x, fill),
{
    broadcast use vstd::seq_lib::group_to_multiset_ensures;

    if covers(a, y, x) {
        lemma_grid_at_covered(a, y, x, fill);
        let i = choose|i: int|
            0 <= i < a.len() && (#[trigger] a[i]).0 as int == y && a[i].1 as int == x && a[i].2
                == grid_at(a, y, x, fill);
        let t1 = a[i];
        assert(a.contains(t1));
        assert(a.to_multiset().count(t1) > 0);
        assert(b.to_multiset().count(t1) > 0);
        assert(b.contains(t1));
        let j = choose|j: int| 0 <= j < b.len() && b[j] == t1;
        assert(covers(b, y, x));
        lemma_grid_at_covered(b, y, x, fill);
        let k = choose|k: int|
            0 <= k < b.len() && (#[trigger] b[k]).0 as int == y && b[k].1 as int == x && b[k].2
                == grid_at(b, y, x, fill);
        let t2 = b[k];
        assert(b.contains(t2));
        lemma_unique_cell_value(b, t1, t2);
    } else {
        if covers(b, y, x) {
            let k = choose|k: int|
                0 <= k < b.len() && (#[trigger] b[k]).0 as int == y && b[k].1 as int == x;
            assert(b.contains(b[k]));
            assert(b.to_multiset().count(b[k]) > 0);
            assert(a.to_multiset().count(b[k]) > 0);
            assert(a.contains(b[k]));
            let i = choose|i: int| 0 <= i < a.len() && a[i] == b[k];
            assert(covers(a, y, x));
        }
        lemma_grid_at_uncovered(a, y, x, fill);
        lemma_grid_at_uncovered(b, y, x, fill);
    }
}

} // verus!
