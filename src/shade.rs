use vstd::prelude::*;
use vstd::arithmetic::div_mod::lemma_fundamental_div_mod_converse;
use crate::tiling::{TileJob, TileRegion};

verus! {

/// The gray level of a pixel whose evaluation took `it` iterations under the
/// cap `max_iter`: `round(max_iter * 255 / it)` saturated to `[0, 255]`; a
/// count of zero, where the quotient has no value, saturates to 255 as well.
pub open spec fn intensity_of(max_iter: nat, it: nat) -> nat {
    if it == 0 {
        255
    } else {
        let q = (2 * max_iter * 255 + it) / (2 * it);
        if q > 255 {
            255
        } else {
            q
        }
    }
}

/// Pixel `k` of a region in row-major order: rows from the top, and within a
/// row columns from the left.
pub open spec fn pixel_at(region: TileRegion, k: int) -> (int, int) {
    (region.start_x + k % region.width(), region.start_y + k / region.width())
}

/// The shaded raster of a region, row-major, when pixel `(x, y)` takes
/// `count(x, y)` iterations.
pub open spec fn render(region: TileRegion, max_iter: nat, count: spec_fn(int, int) -> nat) -> Seq<
    u8,
> {
    Seq::new(
        region.area() as nat,
        |k: int| intensity_of(max_iter, count(pixel_at(region, k).0, pixel_at(region, k).1)) as u8,
    )
}

/// The shades of a sequence of iteration counts, one for one.
pub open spec fn shades(max_iter: nat, counts: Seq<usize>) -> Seq<u8> {
    counts.map_values(|c: usize| intensity_of(max_iter, c as nat) as u8)
}

/// Shading the iteration counts of a region's pixels, taken in row-major
/// order, gives the region's rendered raster.
pub proof fn lemma_shades_render(
    region: TileRegion,
    max_iter: nat,
    counts: Seq<usize>,
    count: spec_fn(int, int) -> nat,
)
    requires
        counts.len() == region.area(),
        forall|k: int|
            0 <= k < counts.len() ==> #[trigger] counts[k] as nat == count(
                pixel_at(region, k).0,
                pixel_at(region, k).1,
            ),
    ensures
        shades(max_iter, counts) == render(region, max_iter, count),
{
    assert(shades(max_iter, counts) =~= render(region, max_iter, count));
}

/// Maps an iteration count to its gray level.
pub fn intensity(max_iter: usize, it: usize) -> (r: u8)
    ensures
        r == intensity_of(max_iter as nat, it as nat),
{
    if it == 0 {
        255
    } else {
        let q: u128 = (2 * (max_iter as u128) * 255 + it as u128) / (2 * (it as u128));
        if q > 255 {
            255
        } else {
            q as u8
        }
    }
}

/// The pixels of a region in row-major order, the order in which its raster
/// is laid out.
pub fn pixel_coords(region: &TileRegion) -> (r: Vec<(u32, u32)>)
    requires
        region.wf(),
        region.area() <= usize::MAX,
    ensures
        r.len() == region.area(),
        forall|k: int|
            0 <= k < r.len() ==> (#[trigger] r[k]).0 == pixel_at(*region, k).0 && r[k].1 == pixel_at(
                *region,
                k,
            ).1,
{
    let ghost w = region.width();
    let mut out: Vec<(u32, u32)> = Vec::new();
    let mut y: u32 = region.start_y;
    while y < region.end_y
        invariant
            region.wf(),
            region.area() <= usize::MAX,
            w == region.width(),
            region.start_y <= y <= region.end_y,
            out.len() == (y - region.start_y) * w,
            forall|k: int|
                0 <= k < out.len() ==> (#[trigger] out[k]).0 == pixel_at(*region, k).0 && out[k].1
                    == pixel_at(*region, k).1,
        decreases region.end_y - y,
    {
        let mut x: u32 = region.start_x;
        while x < region.end_x
            invariant
                region.wf(),
                region.area() <= usize::MAX,
                w == region.width(),
                region.start_y <= y < region.end_y,
                region.start_x <= x <= region.end_x,
                out.len() == (y - region.start_y) * w + (x - region.start_x),
                forall|k: int|
                    0 <= k < out.len() ==> (#[trigger] out[k]).0 == pixel_at(*region, k).0
                        && out[k].1 == pixel_at(*region, k).1,
            decreases region.end_x - x,
        {
            proof {
                let row = y - region.start_y;
                let col = x - region.start_x;
                let k = row * w + col;
                assert(row * w + w <= region.area()) by (nonlinear_arith)
                    requires
                        0 <= row < region.height(),
                        w == region.width(),
                        0 <= w,
                        region.area() == region.width() * region.height(),
                ;
                lemma_fundamental_div_mod_converse(k, w, row, col);
            }
            out.push((x, y));
            x = x + 1;
        }
        proof {
            assert((y - region.start_y) * w + w == (y + 1 - region.start_y) * w) by (nonlinear_arith);
        }
        y = y + 1;
    }
    assert(region.height() * w == region.area()) by (nonlinear_arith)
        requires w == region.width(), region.area() == region.width() * region.height();
    out
}

/// Shades a band from the iteration counts of its pixels, given in the order
/// of `pixel_coords`.
pub fn exec_to_vec(tile: &TileJob, counts: &Vec<usize>) -> (r: Vec<u8>)
    requires
        counts.len() == tile.region.area(),
    ensures
        r@ == shades(tile.max_iter as nat, counts@),
{
    let mut out: Vec<u8> = Vec::with_capacity(counts.len());
    let mut i: usize = 0;
    while i < counts.len()
        invariant
            i <= counts.len(),
            out@ == shades(tile.max_iter as nat, counts@.take(i as int)),
        decreases counts.len() - i,
    {
        out.push(intensity(tile.max_iter, counts[i]));
        proof {
            assert(counts@.take(i + 1) == counts@.take(i as int).push(counts@[i as int]));
        }
        i = i + 1;
        assert(out@ =~= shades(tile.max_iter as nat, counts@.take(i as int)));
    }
    assert(counts@.take(counts.len() as int) =~= counts@);
    out
}

} // verus!
