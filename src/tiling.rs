use vstd::prelude::*;
use vstd::arithmetic::div_mod::{lemma_div_is_ordered, lemma_div_plus_one, lemma_div_multiples_vanish};
use vstd::arithmetic::mul::lemma_mul_inequality;
use crate::error::{ConfigurationError, RenderError};

verus! {

/// A rectangle of pixels, `[start_x, end_x) x [start_y, end_y)`.
#[derive(Debug, Clone, Copy, PartialEq, Eq, Structural)]
pub struct TileRegion {
    pub start_x: u32,
    pub start_y: u32,
    pub end_x: u32,
    pub end_y: u32,
}

impl TileRegion {
    pub open spec fn wf(self) -> bool {
        self.start_x <= self.end_x && self.start_y <= self.end_y
    }

    pub open spec fn width(self) -> int {
        self.end_x - self.start_x
    }

    pub open spec fn height(self) -> int {
        self.end_y - self.start_y
    }

    /// Number of pixels in the rectangle.
    pub open spec fn area(self) -> int {
        self.width() * self.height()
    }
}

/// The integer part of a render request: raster size, iteration cap, number
/// of bands and the directory that receives the artifacts. The plane corners
/// are real numbers and stay with the caller that evaluates pixels.
pub struct JobDescriptor {
    pub width: u32,
    pub height: u32,
    pub max_iter: usize,
    pub num_tiles: usize,
    pub output_dir: String,
}

/// One band of a job.
pub struct TileJob {
    pub max_iter: usize,
    pub region: TileRegion,
    /// Where the band's artifact is stored.
    pub output: String,
}

impl JobDescriptor {
    pub open spec fn valid(&self) -> bool {
        &&& self.width > 0
        &&& self.height > 0
        &&& self.max_iter > 0
        &&& 1 <= self.num_tiles <= self.height
    }

    /// The first constraint that the job breaks, if any.
    pub open spec fn config_error(&self) -> Option<ConfigurationError> {
        if self.width == 0 {
            Some(ConfigurationError::ZeroWidth)
        } else if self.height == 0 {
            Some(ConfigurationError::ZeroHeight)
        } else if self.max_iter == 0 {
            Some(ConfigurationError::ZeroMaxIter)
        } else if self.num_tiles < 1 || self.num_tiles > self.height {
            Some(ConfigurationError::TileCount { num_tiles: self.num_tiles, height: self.height })
        } else {
            None
        }
    }

    /// The whole raster as one region.
    pub open spec fn whole(&self) -> TileRegion {
        TileRegion { start_x: 0, start_y: 0, end_x: self.width, end_y: self.height }
    }

    /// The region of band `i`.
    pub open spec fn band(&self, i: int) -> TileRegion {
        TileRegion {
            start_x: 0,
            start_y: band_edge(i, self.height as int, self.num_tiles as int) as u32,
            end_x: self.width,
            end_y: band_edge(i + 1, self.height as int, self.num_tiles as int) as u32,
        }
    }
}

/// The first row of band `i` when `height` rows are cut into `n` bands.
pub open spec fn band_edge(i: int, height: int, n: int) -> int {
    (i * height) / n
}

pub proof fn lemma_band_edge_bounds(i: int, height: int, n: int)
    requires
        0 <= i <= n,
        0 < n,
        0 <= height,
    ensures
        0 <= band_edge(i, height, n) <= height,
        i * height <= n * height,
        band_edge(0, height, n) == 0,
        band_edge(n, height, n) == height,
{
    lemma_mul_inequality(i, n, height);
    assert(0 * height == 0);
    lemma_div_is_ordered(0, i * height, n);
    lemma_div_is_ordered(i * height, n * height, n);
    assert(n * height == height * n) by (nonlinear_arith);
    lemma_div_multiples_vanish(height, n);
    assert(0 <= i * height) by (nonlinear_arith)
        requires 0 <= i, 0 <= height;
}

/// Band edges never decrease, and strictly increase when every band can hold a row.
pub proof fn lemma_band_edge_order(i: int, j: int, height: int, n: int)
    requires
        0 <= i < j,
        0 < n <= height,
    ensures
        band_edge(i, height, n) < band_edge(j, height, n),
{
    assert(i * height + height <= j * height) by (nonlinear_arith)
        requires i < j, 0 <= height;
    assert(i * height + n <= i * height + height);
    lemma_div_is_ordered(i * height + n, j * height, n);
    lemma_div_plus_one(i * height, n);
    assert(n + i * height == i * height + n);
}

/// Row `y` lies in band `i`.
pub open spec fn in_band(job: &JobDescriptor, i: int, y: int) -> bool {
    job.band(i).start_y <= y < job.band(i).end_y
}

/// Row `y` lies in one of the bands `0..count`.
pub open spec fn row_covered(job: &JobDescriptor, y: int, count: int) -> bool {
    exists|i: int| 0 <= i < count && #[trigger] in_band(job, i, y)
}

/// Every row below the end of band `k` lies in one of bands `0..=k`.
proof fn lemma_rows_covered(job: &JobDescriptor, k: int)
    requires
        job.valid(),
        0 <= k < job.num_tiles,
    ensures
        forall|y: int| 0 <= y < job.band(k).end_y ==> #[trigger] row_covered(job, y, k + 1),
    decreases k,
{
    let h = job.height as int;
    let n = job.num_tiles as int;
    lemma_band_edge_bounds(k, h, n);
    lemma_band_edge_bounds(k + 1, h, n);
    if k > 0 {
        lemma_rows_covered(job, k - 1);
    }
    assert forall|y: int| 0 <= y < job.band(k).end_y implies #[trigger] row_covered(job, y, k + 1) by {
        if y >= job.band(k).start_y {
            assert(in_band(job, k, y));
        } else {
            assert(job.band(k).start_y == job.band(k - 1).end_y);
            assert(row_covered(job, y, k));
            let i = choose|i: int| 0 <= i < k && #[trigger] in_band(job, i, y);
            assert(in_band(job, i, y));
        }
    }
}

/// The bands of a valid job partition its rows: each band holds at least one
/// row, the first starts at row 0 and the last ends at `height`, each band
/// starts where the one before it ends, bands are ordered by first row and
/// pairwise disjoint, and every row of the raster lies in some band.
pub proof fn lemma_bands_partition_rows(job: &JobDescriptor)
    requires
        job.valid(),
    ensures
        job.band(0).start_y == 0,
        job.band(job.num_tiles - 1).end_y == job.height,
        forall|i: int| 0 <= i < job.num_tiles ==> #[trigger] job.band(i).start_y < job.band(i).end_y,
        forall|i: int| 0 <= i < job.num_tiles - 1 ==> #[trigger] job.band(i).end_y == job.band(i + 1).start_y,
        forall|i: int, j: int|
            0 <= i < j < job.num_tiles ==> #[trigger] job.band(i).start_y < #[trigger] job.band(j).start_y
                && job.band(i).end_y <= job.band(j).start_y,
        forall|y: int| 0 <= y < job.height ==> #[trigger] row_covered(job, y, job.num_tiles as int),
{
    let h = job.height as int;
    let n = job.num_tiles as int;
    lemma_band_edge_bounds(0, h, n);
    lemma_band_edge_bounds(n, h, n);
    assert forall|i: int| 0 <= i <= n implies 0 <= #[trigger] band_edge(i, h, n) <= h by {
        lemma_band_edge_bounds(i, h, n);
    }
    assert forall|i: int| 0 <= i < n implies #[trigger] job.band(i).start_y < job.band(i).end_y by {
        lemma_band_edge_order(i, i + 1, h, n);
    }
    assert forall|i: int, j: int| 0 <= i < j < n implies #[trigger] job.band(i).start_y
        < #[trigger] job.band(j).start_y && job.band(i).end_y <= job.band(j).start_y by {
        lemma_band_edge_order(i, j, h, n);
        if i + 1 < j {
            lemma_band_edge_order(i + 1, j, h, n);
        }
    }
    lemma_rows_covered(job, n - 1);
}

/// Checks a job description against its constraints.
pub fn check_job(job: &JobDescriptor) -> (r: Result<(), ConfigurationError>)
    ensures
        r is Ok <==> job.valid(),
        r is Err ==> job.config_error() == Some(r->Err_0),
{
    if job.width == 0 {
        Err(ConfigurationError::ZeroWidth)
    } else if job.height == 0 {
        Err(ConfigurationError::ZeroHeight)
    } else if job.max_iter == 0 {
        Err(ConfigurationError::ZeroMaxIter)
    } else if job.num_tiles < 1 || job.num_tiles as u64 > job.height as u64 {
        Err(ConfigurationError::TileCount { num_tiles: job.num_tiles, height: job.height })
    } else {
        Ok(())
    }
}

/// Decimal digits of `n`, most significant first.
pub open spec fn decimal(n: nat) -> Seq<char>
    decreases n,
{
    let digit = seq!['0', '1', '2', '3', '4', '5', '6', '7', '8', '9'][(n % 10) as int];
    if n < 10 {
        seq![digit]
    } else {
        decimal(n / 10).push(digit)
    }
}

/// The artifact path of the band `[start_y, end_y)` under `dir`:
/// `<dir>/out-<start_y>-<end_y>.png`.
pub open spec fn tile_path(dir: Seq<char>, start_y: u32, end_y: u32) -> Seq<char> {
    dir + seq!['/', 'o', 'u', 't', '-'] + decimal(start_y as nat) + seq!['-'] + decimal(
        end_y as nat,
    ) + seq!['.', 'p', 'n', 'g']
}

/// Relies on `std::format!`: `{}` writes a `u32` in decimal and a `&str` as it is.
#[verifier::external_body]
fn format_tile_path(dir: &str, start_y: u32, end_y: u32) -> (r: String)
    ensures
        r@ == tile_path(dir@, start_y, end_y),
{
    format!("{}/out-{}-{}.png", dir, start_y, end_y)
}

/// Cuts a job into `num_tiles` full-width row bands, band `i` covering rows
/// `[i * height / num_tiles, (i + 1) * height / num_tiles)`, each with the
/// job's iteration cap and an artifact path made from its rows.
pub fn split(job: &JobDescriptor) -> (r: Result<Vec<TileJob>, RenderError>)
    ensures
        r is Ok <==> job.valid(),
        r is Err ==> job.config_error() == Some(r->Err_0->Configuration_0) && r->Err_0 is Configuration,
        r matches Ok(tiles) ==> {
            &&& tiles.len() == job.num_tiles
            &&& forall|i: int| 0 <= i < tiles.len() ==> {
                &&& (#[trigger] tiles[i]).region == job.band(i)
                &&& tiles[i].max_iter == job.max_iter
                &&& tiles[i].output@ == tile_path(job.output_dir@, job.band(i).start_y, job.band(i).end_y)
            }
        },
{
    match check_job(job) {
        Err(e) => { return Err(RenderError::Configuration(e)); },
        Ok(()) => {},
    }
    let n = job.num_tiles as u64;
    let h = job.height as u64;
    let mut tiles: Vec<TileJob> = Vec::with_capacity(job.num_tiles);
    let mut part: u64 = 0;
    while part < n
        invariant
            job.valid(),
            n == job.num_tiles,
            h == job.height,
            part <= n,
            tiles.len() == part,
            forall|i: int| 0 <= i < tiles.len() ==> {
                &&& (#[trigger] tiles[i]).region == job.band(i)
                &&& tiles[i].max_iter == job.max_iter
                &&& tiles[i].output@ == tile_path(job.output_dir@, job.band(i).start_y, job.band(i).end_y)
            },
        decreases n - part,
    {
        proof {
            lemma_band_edge_bounds(part as int, h as int, n as int);
            lemma_band_edge_bounds(part as int + 1, h as int, n as int);
            assert(n * h <= 0xffff_ffff * 0xffff_ffff) by (nonlinear_arith)
                requires n <= h, h <= 0xffff_ffff;
        }
        let start_y = ((part * h) / n) as u32;
        let end_y = (((part + 1) * h) / n) as u32;
        let region = TileRegion { start_x: 0, start_y, end_x: job.width, end_y };
        let output = format_tile_path(job.output_dir.as_str(), start_y, end_y);
        tiles.push(TileJob { max_iter: job.max_iter, region, output });
        part = part + 1;
    }
    Ok(tiles)
}

} // verus!
