//! Sample generation: a stratified sampler over the pixel grid, with
//! optional random jitter inside each stratum, and the mapping between
//! pixel coordinates and the normalized screen square.

use crate::camera::ScreenPoint;
use crate::math::{div_t, lemma_div_t_bounds, sdiv128};
use crate::SCALE;
use vstd::prelude::*;

verus! {

/// Relies on rand::random for stratum jitter; nothing is assumed of the
/// value, and the sampler's contract holds for every outcome.
pub assume_specification<T>[ rand::random::<T> ]() -> (r: T)
    where
        rand::distributions::Standard: rand::distributions::Distribution<T>,
;

/// How samples are drawn.
pub enum SamplerConfig {
    Stratified { samples_per_pixel: u32, jitter: bool },
}

/// One sample: a position in the normalized screen square.
#[derive(Clone, Copy, PartialEq, Eq, Structural, Debug)]
pub struct Sample {
    pub pixel: ScreenPoint,
}

/// A half-open interval of sample grid coordinates.
#[derive(Clone, Copy, PartialEq, Eq, Structural, Debug)]
pub struct SampleRange {
    pub start: u32,
    pub end: u32,
}

/// `p` is a sample drawn from grid cell `(cx, cy)`: it maps some raw
/// position inside the cell (the cell corner exactly, when jitter is off)
/// into the normalized screen square.
pub open spec fn spec_in_cell(
    resolution: [u32; 2],
    jitter: bool,
    cx: int,
    cy: int,
    p: ScreenPoint,
) -> bool {
    exists|jx: int, jy: int|
        #![trigger spec_cell_sample(resolution, cx, cy, jx, jy)]
        0 <= jx < SCALE / 2 && 0 <= jy < SCALE / 2 && (!jitter ==> jx == 0 && jy == 0) && p
            == spec_cell_sample(resolution, cx, cy, jx, jy)
}

/// The normalized sample position of grid cell `(cx, cy)` with an offset
/// of `(jx, jy)` raw units inside the cell: `to_uniform` of the raw
/// position `(cx * SCALE + jx, cy * SCALE + jy)`.
pub open spec fn spec_cell_sample(resolution: [u32; 2], cx: int, cy: int, jx: int, jy: int) -> ScreenPoint {
    ScreenPoint {
        x: div_t(
            (2 * (cx * SCALE + jx) - resolution[0] * SCALE + SCALE) * SCALE,
            resolution[0] * SCALE,
        ) as i64,
        y: div_t(
            (2 * (cy * SCALE + jy) - resolution[1] * SCALE + SCALE) * SCALE,
            resolution[1] * SCALE,
        ) as i64,
    }
}

#[derive(Clone, Copy, Debug)]
pub struct StratifiedSampler {
    pub resolution: [u32; 2],
    pub range_x: SampleRange,
    pub range_y: SampleRange,
    pub jitter: bool,
}

impl StratifiedSampler {
    /// Well-formed sampler: a positive sample grid within range, covered
    /// partly by this sampler's window.
    pub open spec fn wf(self) -> bool {
        &&& 1 <= self.resolution[0] <= 0x8000
        &&& 1 <= self.resolution[1] <= 0x8000
        &&& self.range_x.start <= self.range_x.end <= self.resolution[0]
        &&& self.range_y.start <= self.range_y.end <= self.resolution[1]
    }

    /// Builds a sampler covering the whole sample grid: the resolution
    /// scaled up by the per-pixel sample count.
    pub fn new(resolution: [u32; 2], config: SamplerConfig) -> (r: StratifiedSampler)
        requires
            1 <= resolution[0] <= 2048,
            1 <= resolution[1] <= 2048,
            match config {
                SamplerConfig::Stratified { samples_per_pixel, .. } => 1 <= samples_per_pixel
                    <= 16,
            },
        ensures
            r.wf(),
            r.range_x.start == 0,
            r.range_y.start == 0,
            match config {
                SamplerConfig::Stratified { samples_per_pixel, jitter } => {
                    &&& r.resolution[0] == resolution[0] * samples_per_pixel
                    &&& r.resolution[1] == resolution[1] * samples_per_pixel
                    &&& r.range_x.end == r.resolution[0]
                    &&& r.range_y.end == r.resolution[1]
                    &&& r.jitter == jitter
                },
            },
    {
        match config {
            SamplerConfig::Stratified { samples_per_pixel, jitter } => {
                proof {
                    assert(1 <= resolution[0] * samples_per_pixel <= 0x8000 && 1 <= resolution[1]
                        * samples_per_pixel <= 0x8000) by (nonlinear_arith)
                        requires
                            1 <= resolution[0] <= 2048,
                            1 <= resolution[1] <= 2048,
                            1 <= samples_per_pixel <= 16,
                    ;
                }
                let width = resolution[0] * samples_per_pixel;
                let height = resolution[1] * samples_per_pixel;
                StratifiedSampler {
                    resolution: [width, height],
                    range_x: SampleRange { start: 0, end: width },
                    range_y: SampleRange { start: 0, end: height },
                    jitter,
                }
            },
        }
    }

    pub fn width(&self) -> (r: u32)
        requires
            self.wf(),
        ensures
            r == self.range_x.end - self.range_x.start,
    {
        self.range_x.end - self.range_x.start
    }

    pub fn height(&self) -> (r: u32)
        requires
            self.wf(),
        ensures
            r == self.range_y.end - self.range_y.start,
    {
        self.range_y.end - self.range_y.start
    }

    pub fn area(&self) -> (r: u32)
        requires
            self.wf(),
        ensures
            r == (self.range_x.end - self.range_x.start) * (self.range_y.end
                - self.range_y.start),
    {
        proof {
            assert((self.range_x.end - self.range_x.start) * (self.range_y.end
                - self.range_y.start) <= 0x8000 * 0x8000) by (nonlinear_arith)
                requires
                    0 <= self.range_x.end - self.range_x.start <= 0x8000,
                    0 <= self.range_y.end - self.range_y.start <= 0x8000,
            ;
        }
        self.width() * self.height()
    }

    /// Draws one sample per grid cell of this sampler's window, in cell
    /// order (`x` outer, `y` inner), each mapped into the normalized
    /// screen square from a position inside its cell; with jitter enabled
    /// the position inside the cell is random, and the contract holds for
    /// every random outcome.
    pub fn sample(&self) -> (r: Vec<Sample>)
        requires
            self.wf(),
        ensures
            r@.len() == (self.range_x.end - self.range_x.start) * (self.range_y.end
                - self.range_y.start),
            forall|i: int|
                0 <= i < r@.len() ==> -SCALE <= (#[trigger] r@[i]).pixel.x <= SCALE && -SCALE
                    <= r@[i].pixel.y <= SCALE,
            forall|i: int|
                0 <= i < r@.len() ==> {
                    let h = (self.range_y.end - self.range_y.start) as int;
                    spec_in_cell(
                        self.resolution,
                        self.jitter,
                        self.range_x.start + i / h,
                        self.range_y.start + i % h,
                        (#[trigger] r@[i]).pixel,
                    )
                },
    {
        let ghost height = (self.range_y.end - self.range_y.start) as int;
        let mut result: Vec<Sample> = Vec::new();
        let mut x: u32 = self.range_x.start;
        while x < self.range_x.end
            invariant
                self.wf(),
                self.range_x.start <= x <= self.range_x.end,
                height == self.range_y.end - self.range_y.start,
                result@.len() == (x - self.range_x.start) * height,
                forall|i: int|
                    0 <= i < result@.len() ==> -SCALE <= (#[trigger] result@[i]).pixel.x <= SCALE
                        && -SCALE <= result@[i].pixel.y <= SCALE,
                forall|i: int|
                    0 <= i < result@.len() ==> spec_in_cell(
                        self.resolution,
                        self.jitter,
                        self.range_x.start + i / height,
                        self.range_y.start + i % height,
                        (#[trigger] result@[i]).pixel,
                    ),
            decreases self.range_x.end - x,
        {
            let mut y: u32 = self.range_y.start;
            while y < self.range_y.end
                invariant
                    self.wf(),
                    self.range_x.start <= x < self.range_x.end,
                    self.range_y.start <= y <= self.range_y.end,
                    height == self.range_y.end - self.range_y.start,
                    result@.len() == (x - self.range_x.start) * height + (y - self.range_y.start),
                    forall|i: int|
                        0 <= i < result@.len() ==> -SCALE <= (#[trigger] result@[i]).pixel.x
                            <= SCALE && -SCALE <= result@[i].pixel.y <= SCALE,
                    forall|i: int|
                        0 <= i < result@.len() ==> spec_in_cell(
                            self.resolution,
                            self.jitter,
                            self.range_x.start + i / height,
                            self.range_y.start + i % height,
                            (#[trigger] result@[i]).pixel,
                        ),
                decreases self.range_y.end - y,
            {
                let jx: i64 = if self.jitter {
                    (rand::random::<u32>() % ((SCALE / 2) as u32)) as i64
                } else {
                    0
                };
                let jy: i64 = if self.jitter {
                    (rand::random::<u32>() % ((SCALE / 2) as u32)) as i64
                } else {
                    0
                };
                proof {
                    assert((x as int) * (SCALE as int) <= (self.resolution[0] - 1) * (
                    SCALE as int) && (y as int) * (SCALE as int) <= (self.resolution[1] - 1) * (
                    SCALE as int) && 0 <= (x as int) * (SCALE as int) && 0 <= (y as int) * (
                    SCALE as int) && (self.resolution[0] - 1) * (SCALE as int) + 32768
                        <= self.resolution[0] * (SCALE as int) - 32768) by (nonlinear_arith)
                        requires
                            0 <= x < self.resolution[0],
                            0 <= y < self.resolution[1],
                            self.resolution[0] <= 0x8000,
                            self.resolution[1] <= 0x8000,
                            SCALE == 65536,
                    ;
                    assert((self.resolution[1] - 1) * (SCALE as int) + 32768
                        <= self.resolution[1] * (SCALE as int) - 32768) by (nonlinear_arith)
                        requires
                            1 <= self.resolution[1],
                            SCALE == 65536,
                    ;
                }
                let px: i64 = (x as i64) * SCALE + jx;
                let py: i64 = (y as i64) * SCALE + jy;
                let pixel = to_uniform(self.resolution, ScreenPoint { x: px, y: py });
                proof {
                    let k = result@.len() as int;
                    vstd::arithmetic::div_mod::lemma_fundamental_div_mod_converse(
                        k,
                        height,
                        (x - self.range_x.start) as int,
                        (y - self.range_y.start) as int,
                    );
                    assert(pixel == spec_cell_sample(
                        self.resolution,
                        x as int,
                        y as int,
                        jx as int,
                        jy as int,
                    ));
                    assert(spec_in_cell(self.resolution, self.jitter, x as int, y as int, pixel));
                }
                result.push(Sample { pixel });
                y = y + 1;
            }
            proof {
                assert(((x - self.range_x.start) as int) * height + height == ((x + 1
                    - self.range_x.start) as int) * height) by (nonlinear_arith);
            }
            x = x + 1;
        }
        result
    }

    /// Splits this sampler's window into a grid of disjoint sub-windows,
    /// so that the pieces can be rendered independently.
    pub fn split(&self, n_parts: u16) -> (r: Vec<StratifiedSampler>)
        requires
            self.wf(),
            n_parts >= 1,
        ensures
            forall|i: int| 0 <= i < r@.len() ==> (#[trigger] r@[i]).wf(),
    {
        let area: u32 = self.area();
        let sq0: u64 = crate::math::isqrt((area as u128) / (n_parts as u128)) as u64;
        proof {
            assert((area as u128) / (n_parts as u128) <= area as u128) by (nonlinear_arith)
                requires
                    n_parts >= 1,
            ;
        }
        let square_width: u32 = if sq0 == 0 {
            1
        } else if sq0 > 0x8000 {
            0x8000
        } else {
            sq0 as u32
        };
        let mut mx: u32 = self.width() / square_width;
        let mut my: u32 = self.height() / square_width;
        if mx == 0 {
            mx = 1;
        }
        if my == 0 {
            my = 1;
        }
        let xs = partition(&self.range_x, mx);
        let ys = partition(&self.range_y, my);
        let mut result: Vec<StratifiedSampler> = Vec::new();
        let mut i: usize = 0;
        while i < xs.len()
            invariant
                self.wf(),
                forall|k: int|
                    0 <= k < xs@.len() ==> (#[trigger] xs@[k]).start <= xs@[k].end
                        <= self.range_x.end,
                forall|k: int|
                    0 <= k < ys@.len() ==> (#[trigger] ys@[k]).start <= ys@[k].end
                        <= self.range_y.end,
                forall|k: int| 0 <= k < result@.len() ==> (#[trigger] result@[k]).wf(),
            decreases xs@.len() - i,
        {
            let mut j: usize = 0;
            while j < ys.len()
                invariant
                    self.wf(),
                    i < xs@.len(),
                    forall|k: int|
                        0 <= k < xs@.len() ==> (#[trigger] xs@[k]).start <= xs@[k].end
                            <= self.range_x.end,
                    forall|k: int|
                        0 <= k < ys@.len() ==> (#[trigger] ys@[k]).start <= ys@[k].end
                            <= self.range_y.end,
                    forall|k: int| 0 <= k < result@.len() ==> (#[trigger] result@[k]).wf(),
                decreases ys@.len() - j,
            {
                result.push(
                    StratifiedSampler {
                        resolution: self.resolution,
                        range_x: xs[i],
                        range_y: ys[j],
                        jitter: self.jitter,
                    },
                );
                j = j + 1;
            }
            i = i + 1;
        }
        result
    }
}

/// Splits a grid interval into `n` contiguous pieces whose union is the
/// interval: equal-width steps, with the last piece absorbing the rest.
pub fn partition(r: &SampleRange, n: u32) -> (parts: Vec<SampleRange>)
    requires
        n >= 1,
        r.start <= r.end,
    ensures
        parts@.len() == n,
        parts@[0].start == r.start,
        parts@[n as int - 1].end == r.end,
        forall|i: int| 0 <= i < n ==> (#[trigger] parts@[i]).start <= parts@[i].end <= r.end,
        forall|i: int| 0 < i < n ==> (#[trigger] parts@[i]).start == parts@[i - 1].end,
{
    let step: u32 = (r.end - r.start) / n;
    proof {
        crate::math::lemma_div_t_bounds((r.end - r.start) as int, n as int);
        assert((n as int) * (step as int) <= r.end - r.start);
    }
    let mut parts: Vec<SampleRange> = Vec::new();
    let mut cur: u32 = r.start;
    let mut i: u32 = 0;
    while i < n
        invariant
            i <= n,
            n >= 1,
            r.start <= r.end,
            (n as int) * (step as int) <= r.end - r.start,
            parts@.len() == i,
            i > 0 ==> parts@[0].start == r.start,
            i < n ==> cur as int == r.start + (i as int) * (step as int),
            i == n ==> cur == r.end,
            i > 0 ==> parts@[i as int - 1].end == cur,
            forall|k: int| 0 <= k < i ==> (#[trigger] parts@[k]).start <= parts@[k].end <= r.end,
            forall|k: int| 0 < k < i ==> (#[trigger] parts@[k]).start == parts@[k - 1].end,
        decreases n - i,
    {
        proof {
            assert((i as int) * (step as int) + (step as int) == ((i as int) + 1) * (step as int))
                by (nonlinear_arith);
            assert(((i as int) + 1) * (step as int) <= (n as int) * (step as int))
                by (nonlinear_arith)
                requires
                    0 <= i < n,
                    step >= 0,
            ;
        }
        let start: u32 = cur;
        let end: u32 = if i != n - 1 {
            cur + step
        } else {
            r.end
        };
        proof {
            assert(start <= end) by {
                if i != n - 1 {
                } else {
                    assert((i as int) * (step as int) <= (n as int) * (step as int))
                        by (nonlinear_arith)
                        requires
                            0 <= i < n,
                            step >= 0,
                    ;
                }
            }
        }
        parts.push(SampleRange { start, end });
        cur = end;
        i = i + 1;
    }
    parts
}

/// Maps a raw sample-grid position into the normalized screen square:
/// `(2 p - res + 1) / res` in fixed point, componentwise.
pub fn to_uniform(resolution: [u32; 2], point: ScreenPoint) -> (r: ScreenPoint)
    requires
        1 <= resolution[0] <= 0x8000,
        1 <= resolution[1] <= 0x8000,
        0 <= point.x <= (resolution[0] as i64) * SCALE - SCALE / 2 - 1,
        0 <= point.y <= (resolution[1] as i64) * SCALE - SCALE / 2 - 1,
    ensures
        r.x == div_t(
            (2 * point.x - (resolution[0] as int) * SCALE + SCALE) * SCALE,
            (resolution[0] as int) * SCALE,
        ),
        r.y == div_t(
            (2 * point.y - (resolution[1] as int) * SCALE + SCALE) * SCALE,
            (resolution[1] as int) * SCALE,
        ),
        -SCALE <= r.x <= SCALE,
        -SCALE <= r.y <= SCALE,
{
    let rx = uniform_coord(resolution[0], point.x);
    let ry = uniform_coord(resolution[1], point.y);
    ScreenPoint { x: rx, y: ry }
}

/// One coordinate of `to_uniform`.
fn uniform_coord(res: u32, p: i64) -> (r: i64)
    requires
        1 <= res <= 0x8000,
        0 <= p <= (res as i64) * SCALE - SCALE / 2 - 1,
    ensures
        r == div_t((2 * p - (res as int) * SCALE + SCALE) * SCALE, (res as int) * SCALE),
        -SCALE <= r <= SCALE,
{
    let resr: i64 = (res as i64) * SCALE;
    let num: i64 = 2 * p - resr + SCALE;
    proof {
        assert(-(resr as int) + SCALE <= num <= resr - 2);
        assert(num >= 0 ==> num * SCALE >= 0) by (nonlinear_arith);
        assert(num <= 0 ==> num * SCALE <= 0) by (nonlinear_arith);
        crate::vector::lemma_mul_abs_bound2(num as int, SCALE as int, 0x8001_0000, SCALE as int);
        lemma_div_t_bounds(num * SCALE, resr as int);
        let q = div_t(num * SCALE, resr as int);
        assert(-(SCALE as int) <= q <= SCALE as int) by (nonlinear_arith)
            requires
                q == div_t(num * SCALE, resr as int),
                (resr as int) * q - (resr - 1) <= num * SCALE <= (resr as int) * q + (resr - 1),
                num * SCALE >= 0 ==> (resr as int) * q <= num * SCALE && q >= 0,
                num * SCALE <= 0 ==> num * SCALE <= (resr as int) * q && q <= 0,
                -(resr as int) <= num <= resr,
                65536 <= resr <= 0x8000_0000,
                SCALE == 65536,
                num >= 0 ==> num * SCALE >= 0,
                num <= 0 ==> num * SCALE <= 0,
        ;
    }
    sdiv128((num as i128) * (SCALE as i128), resr as i128) as i64
}

/// Maps a normalized screen position back to a raw sample-grid position:
/// `(p + 1) * res / 2 - 1/2` in fixed point, componentwise.
pub fn from_uniform(resolution: [u32; 2], point: ScreenPoint) -> (r: ScreenPoint)
    requires
        1 <= resolution[0] <= 0x8000,
        1 <= resolution[1] <= 0x8000,
        -SCALE <= point.x <= SCALE,
        -SCALE <= point.y <= SCALE,
    ensures
        r.x == div_t((point.x + SCALE) * (resolution[0] as int), 2) - SCALE / 2,
        r.y == div_t((point.y + SCALE) * (resolution[1] as int), 2) - SCALE / 2,
{
    let rx = inv_uniform_coord(resolution[0], point.x);
    let ry = inv_uniform_coord(resolution[1], point.y);
    ScreenPoint { x: rx, y: ry }
}

/// One coordinate of `from_uniform`.
fn inv_uniform_coord(res: u32, p: i64) -> (r: i64)
    requires
        1 <= res <= 0x8000,
        -SCALE <= p <= SCALE,
    ensures
        r == div_t((p + SCALE) * (res as int), 2) - SCALE / 2,
{
    proof {
        crate::vector::lemma_mul_abs_bound2((p + SCALE) as int, res as int, 2 * SCALE as int, 0x8000);
        lemma_div_t_bounds((p + SCALE) * (res as int), 2);
    }
    sdiv128(((p + SCALE) as i128) * (res as i128), 2) as i64 - SCALE / 2
}

} // verus!
