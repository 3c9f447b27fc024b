use vstd::prelude::*;
use vstd::arithmetic::div_mod::{lemma_fundamental_div_mod, lemma_fundamental_div_mod_converse};
use crate::shade::{render, pixel_at};
use crate::tiling::{JobDescriptor, TileRegion, band_edge, lemma_band_edge_bounds, lemma_band_edge_order};

verus! {

/// The buffers of `parts` laid end to end, in order.
pub open spec fn concat(parts: Seq<Seq<u8>>) -> Seq<u8>
    decreases parts.len(),
{
    if parts.len() == 0 {
        Seq::empty()
    } else {
        concat(parts.drop_last()) + parts.last()
    }
}

/// The views of a list of buffers.
pub open spec fn views(parts: Seq<Vec<u8>>) -> Seq<Seq<u8>> {
    parts.map_values(|v: Vec<u8>| v@)
}

/// Concatenates band buffers in the order given.
pub fn merge_vecs(parts: Vec<Vec<u8>>) -> (r: Vec<u8>)
    ensures
        r@ == concat(views(parts@)),
{
    let mut out: Vec<u8> = Vec::new();
    let mut i: usize = 0;
    while i < parts.len()
        invariant
            i <= parts.len(),
            out@ == concat(views(parts@).take(i as int)),
        decreases parts.len() - i,
    {
        let part = &parts[i];
        let ghost before = out@;
        let mut j: usize = 0;
        while j < part.len()
            invariant
                j <= part.len(),
                out@ == before + part@.take(j as int),
            decreases part.len() - j,
        {
            out.push(part[j]);
            j = j + 1;
            assert(out@ =~= before + part@.take(j as int));
        }
        proof {
            assert(part@.take(part.len() as int) =~= part@);
            assert(views(parts@).take(i + 1).drop_last() =~= views(parts@).take(i as int));
        }
        i = i + 1;
    }
    assert(views(parts@).take(parts.len() as int) =~= views(parts@));
    out
}

/// The full-width rows `[a, b)` of a raster `width` pixels wide.
pub open spec fn rows(width: u32, a: int, b: int) -> TileRegion {
    TileRegion { start_x: 0, start_y: a as u32, end_x: width, end_y: b as u32 }
}

/// Two adjacent full-width row bands, rendered and laid end to end, give the
/// band that spans both.
proof fn lemma_adjacent_rows(width: u32, a: int, b: int, c: int, max_iter: nat, count: spec_fn(int, int) -> nat)
    requires
        width > 0,
        0 <= a <= b <= c <= u32::MAX,
    ensures
        render(rows(width, a, b), max_iter, count) + render(rows(width, b, c), max_iter, count)
            == render(rows(width, a, c), max_iter, count),
{
    let w = width as int;
    let lo = render(rows(width, a, b), max_iter, count);
    let hi = render(rows(width, b, c), max_iter, count);
    let all = render(rows(width, a, c), max_iter, count);
    assert(w * (b - a) + w * (c - b) == w * (c - a)) by (nonlinear_arith);
    assert(lo.len() == w * (b - a));
    assert(hi.len() == w * (c - b));
    assert(all.len() == w * (c - a));
    assert forall|k: int| 0 <= k < all.len() implies #[trigger] all[k] == (lo + hi)[k] by {
        if k >= lo.len() {
            let k2 = k - w * (b - a);
            lemma_fundamental_div_mod(k2, w);
            let q = k2 / w;
            let r = k2 % w;
            assert(k == (q + (b - a)) * w + r) by (nonlinear_arith)
                requires k2 == w * q + r, k2 == k - w * (b - a);
            lemma_fundamental_div_mod_converse(k, w, q + (b - a), r);
            assert(pixel_at(rows(width, a, c), k) == pixel_at(rows(width, b, c), k2));
        }
    }
    assert(all =~= lo + hi);
}

/// The rasters of the bands of a job, each rendered on its own.
pub open spec fn band_renders(job: &JobDescriptor, count: spec_fn(int, int) -> nat) -> Seq<Seq<u8>> {
    Seq::new(job.num_tiles as nat, |i: int| render(job.band(i), job.max_iter as nat, count))
}

proof fn lemma_band_prefix(job: &JobDescriptor, count: spec_fn(int, int) -> nat, j: int)
    requires
        job.valid(),
        0 <= j <= job.num_tiles,
    ensures
        concat(band_renders(job, count).take(j)) == render(
            rows(job.width, 0, band_edge(j, job.height as int, job.num_tiles as int)),
            job.max_iter as nat,
            count,
        ),
    decreases j,
{
    let h = job.height as int;
    let n = job.num_tiles as int;
    let mi = job.max_iter as nat;
    lemma_band_edge_bounds(j, h, n);
    if j == 0 {
        assert(band_renders(job, count).take(0) =~= Seq::<Seq<u8>>::empty());
        assert(rows(job.width, 0, 0).area() == 0) by (nonlinear_arith)
            requires rows(job.width, 0, 0).height() == 0, rows(job.width, 0, 0).area() == rows(job.width, 0, 0).width() * rows(job.width, 0, 0).height();
        assert(render(rows(job.width, 0, 0), mi, count) =~= Seq::<u8>::empty());
    } else {
        lemma_band_prefix(job, count, j - 1);
        lemma_band_edge_bounds(j - 1, h, n);
        lemma_band_edge_order(j - 1, j, h, n);
        let e0 = band_edge(j - 1, h, n);
        let e1 = band_edge(j, h, n);
        assert(band_renders(job, count).take(j).drop_last() =~= band_renders(job, count).take(j - 1));
        assert(job.band(j - 1) == rows(job.width, e0, e1));
        lemma_adjacent_rows(job.width, 0, e0, e1, mi, count);
    }
}

/// Rendering a valid job band by band and laying the bands end to end in
/// order gives exactly the raster of the whole image rendered in one pass,
/// whatever iteration count each pixel takes.
pub proof fn lemma_split_render_matches_whole(job: &JobDescriptor, count: spec_fn(int, int) -> nat)
    requires
        job.valid(),
    ensures
        concat(band_renders(job, count)) == render(job.whole(), job.max_iter as nat, count),
{
    let n = job.num_tiles as int;
    lemma_band_prefix(job, count, n);
    lemma_band_edge_bounds(n, job.height as int, n);
    assert(band_renders(job, count).take(n) =~= band_renders(job, count));
    assert(rows(job.width, 0, job.height as int) == job.whole());
}

} // verus!
