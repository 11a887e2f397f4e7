//! Image post-filters: the identity filter and block-averaging smoothing.

use crate::color::{Color, COLOR_MAX};
use crate::datastructures::Matrix;
use crate::SCALE;
use vstd::prelude::*;

verus! {

/// The identity filter: leaves resolution and image unchanged.
pub struct NopFilter;

impl NopFilter {
    pub fn process_resolution(&self, r: [u32; 2]) -> (out: [u32; 2])
        ensures
            out == r,
    {
        r
    }

    pub fn process_image(&self, image: Matrix<Color>) -> (out: Matrix<Color>)
        ensures
            out == image,
    {
        image
    }
}

/// Supersampling smoothing: renders at `x` times the resolution, then
/// averages each `x` by `x` block down to one pixel.
pub struct SmoothingFilter(pub u32);

impl SmoothingFilter {
    /// The supersampling factor.
    pub fn x(&self) -> (r: u32)
        ensures
            r == self.0,
    {
        self.0
    }

    /// Scales a target resolution up by the supersampling factor.
    pub fn process_resolution(&self, r: [u32; 2]) -> (out: [u32; 2])
        requires
            1 <= self.0 <= 16,
            r[0] <= 2048,
            r[1] <= 2048,
        ensures
            out[0] == r[0] * self.0,
            out[1] == r[1] * self.0,
    {
        proof {
            assert(r[0] * self.0 <= 2048 * 16 && r[1] * self.0 <= 2048 * 16) by (nonlinear_arith)
                requires
                    1 <= self.0 <= 16,
                    r[0] <= 2048,
                    r[1] <= 2048,
            ;
        }
        [r[0] * self.0, r[1] * self.0]
    }

    /// Averages each `x` by `x` block of the supersampled image down to one
    /// pixel of the output image.
    pub fn process_image(&self, image: &Matrix<Color>) -> (out: Matrix<Color>)
        requires
            1 <= self.0 <= 16,
            image.wf(),
            image.shape[0] <= 0x8000,
            image.shape[1] <= 0x8000,
            forall|i: int, j: int|
                0 <= i < image.shape[0] && 0 <= j < image.shape[1] ==> (#[trigger] image.spec_at(
                    i,
                    j,
                )).wf(),
        ensures
            out.wf(),
            out.shape[0] == image.shape[0] / self.0,
            out.shape[1] == image.shape[1] / self.0,
    {
        let f = self.0;
        let w: u32 = image.shape[0] / f;
        let h: u32 = image.shape[1] / f;
        let mut data: Vec<Vec<Color>> = Vec::new();
        let mut ox: u32 = 0;
        while ox < w
            invariant
                1 <= f <= 16,
                image.wf(),
                image.shape[0] <= 0x8000,
                image.shape[1] <= 0x8000,
                forall|i: int, j: int|
                    0 <= i < image.shape[0] && 0 <= j < image.shape[1] ==> (
                    #[trigger] image.spec_at(i, j)).wf(),
                w == image.shape[0] / f,
                h == image.shape[1] / f,
                ox <= w,
                data@.len() == ox,
                forall|i: int| 0 <= i < data@.len() ==> (#[trigger] data@[i])@.len() == h,
                f == self.0,
            decreases w - ox,
        {
            let mut col: Vec<Color> = Vec::new();
            let mut oy: u32 = 0;
            while oy < h
                invariant
                    1 <= f <= 16,
                    image.wf(),
                    image.shape[0] <= 0x8000,
                    image.shape[1] <= 0x8000,
                    forall|i: int, j: int|
                        0 <= i < image.shape[0] && 0 <= j < image.shape[1] ==> (
                        #[trigger] image.spec_at(i, j)).wf(),
                    w == image.shape[0] / f,
                    h == image.shape[1] / f,
                    ox < w,
                    oy <= h,
                    col@.len() == oy,
                    f == self.0,
                decreases h - oy,
            {
                let c = self.block_average(image, ox, oy);
                col.push(c);
                oy = oy + 1;
            }
            data.push(col);
            ox = ox + 1;
        }
        Matrix { shape: [w, h], data }
    }

    /// The average of one source block.
    fn block_average(&self, image: &Matrix<Color>, ox: u32, oy: u32) -> (r: Color)
        requires
            1 <= self.0 <= 16,
            image.wf(),
            image.shape[0] <= 0x8000,
            image.shape[1] <= 0x8000,
            forall|i: int, j: int|
                0 <= i < image.shape[0] && 0 <= j < image.shape[1] ==> (#[trigger] image.spec_at(
                    i,
                    j,
                )).wf(),
            ox < image.shape[0] / self.0,
            oy < image.shape[1] / self.0,
        ensures
            r.wf(),
    {
        let f = self.0;
        proof {
            crate::math::lemma_div_t_bounds(image.shape[0] as int, f as int);
            crate::math::lemma_div_t_bounds(image.shape[1] as int, f as int);
            assert(0 <= (ox as int) * (f as int) <= (ox as int + 1) * (f as int) && (ox as int
                + 1) * (f as int) <= ((image.shape[0] as int) / (f as int)) * (f as int) && ((
            image.shape[0] as int) / (f as int)) * (f as int)
                <= image.shape[0] as int) by (nonlinear_arith)
                requires
                    0 <= ox < (image.shape[0] as int) / (f as int),
                    1 <= f,
                    (f as int) * ((image.shape[0] as int) / (f as int)) <= image.shape[0] as int,
            ;
            assert(0 <= (oy as int) * (f as int) <= (oy as int + 1) * (f as int) && (oy as int
                + 1) * (f as int) <= ((image.shape[1] as int) / (f as int)) * (f as int) && ((
            image.shape[1] as int) / (f as int)) * (f as int)
                <= image.shape[1] as int) by (nonlinear_arith)
                requires
                    0 <= oy < (image.shape[1] as int) / (f as int),
                    1 <= f,
                    (f as int) * ((image.shape[1] as int) / (f as int)) <= image.shape[1] as int,
            ;
        }
        proof {
            assert((ox as int) * (f as int) + (f as int) == (ox as int + 1) * (f as int))
                by (nonlinear_arith);
            assert((oy as int) * (f as int) + (f as int) == (oy as int + 1) * (f as int))
                by (nonlinear_arith);
        }
        let x0: u32 = ox * f;
        let y0: u32 = oy * f;
        let mut acc = Color::new(0, 0, 0);
        let mut dx: u32 = 0;
        while dx < f
            invariant
                1 <= f <= 16,
                image.wf(),
                forall|i: int, j: int|
                    0 <= i < image.shape[0] && 0 <= j < image.shape[1] ==> (
                    #[trigger] image.spec_at(i, j)).wf(),
                x0 + f <= image.shape[0],
                y0 + f <= image.shape[1],
                dx <= f,
                acc.wf(),
            decreases f - dx,
        {
            let mut dy: u32 = 0;
            while dy < f
                invariant
                    1 <= f <= 16,
                    image.wf(),
                    forall|i: int, j: int|
                        0 <= i < image.shape[0] && 0 <= j < image.shape[1] ==> (
                        #[trigger] image.spec_at(i, j)).wf(),
                    x0 + f <= image.shape[0],
                    y0 + f <= image.shape[1],
                    dx < f,
                    dy <= f,
                    acc.wf(),
                decreases f - dy,
            {
                acc = acc.add(image.at(x0 + dx, y0 + dy));
                dy = dy + 1;
            }
            dx = dx + 1;
        }
        proof {
            assert(0 < (f as int) * (f as int) * (SCALE as int) <= COLOR_MAX as int
                && (f as int) * (f as int) <= 256) by (nonlinear_arith)
                requires
                    1 <= f <= 16,
                    SCALE == 65536,
                    COLOR_MAX == 0x1000_0000_0000i64,
            ;
        }
        let count: i64 = (f as i64) * (f as i64) * SCALE;
        acc.div(count)
    }
}

} // verus!
