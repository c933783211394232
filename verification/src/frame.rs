//! Raw decoded frames: contiguous pixel buffers with their dimensions.

use vstd::prelude::*;
use crate::image_processing::{rgb_to_brightness, spec_luma};

verus! {

/// A single-channel frame: one luma byte per pixel, row-major.
pub struct GrayFrame {
    pub width: u32,
    pub height: u32,
    pub data: Vec<u8>,
}

impl GrayFrame {
    pub open spec fn wf(self) -> bool {
        self.data@.len() == self.width * self.height
    }

    pub fn new(width: u32, height: u32, data: Vec<u8>) -> (f: GrayFrame)
        requires
            data@.len() == width * height,
        ensures
            f.width == width,
            f.height == height,
            f.data == data,
            f.wf(),
    {
        GrayFrame { width, height, data }
    }

    /// Collapses a packed RGB buffer (three bytes per pixel) to luma,
    /// pixel by pixel, with the standard luma weights.
    pub fn from_rgb24(width: u32, height: u32, data: &Vec<u8>) -> (f: GrayFrame)
        requires
            data@.len() == 3 * width * height,
        ensures
            f.width == width,
            f.height == height,
            f.wf(),
            forall|i: int|
                0 <= i < width * height ==> f.data@[i] == spec_luma(
                    data@[3 * i],
                    data@[3 * i + 1],
                    data@[3 * i + 2],
                ),
    {
        let total: usize = data.len();
        let n: usize = total / 3;
        proof {
            assert(data@.len() == 3 * (width * height)) by (nonlinear_arith)
                requires
                    data@.len() == 3 * width * height,
            ;
            assert(3 * (width * height) / 3 == width * height) by (nonlinear_arith);
        }
        let mut out: Vec<u8> = Vec::new();
        let mut i: usize = 0;
        while i < n
            invariant
                i <= n,
                n == width * height,
                data@.len() == 3 * n,
                total == 3 * n,
                out@.len() == i,
                forall|j: int|
                    0 <= j < i ==> out@[j] == spec_luma(
                        data@[3 * j],
                        data@[3 * j + 1],
                        data@[3 * j + 2],
                    ),
            decreases n - i,
        {
            proof {
                assert(3 * i + 2 < 3 * n) by (nonlinear_arith)
                    requires
                        i < n,
                ;
                assert(3 * i + 2 < total);
            }
            let l = rgb_to_brightness(data[3 * i], data[3 * i + 1], data[3 * i + 2]);
            out.push(l);
            i = i + 1;
        }
        GrayFrame { width, height, data: out }
    }
}

/// An RGB frame: three bytes per pixel, row-major, red first.
pub struct RgbFrame {
    pub width: u32,
    pub height: u32,
    pub data: Vec<u8>,
}

impl RgbFrame {
    pub open spec fn wf(self) -> bool {
        self.data@.len() == 3 * self.width * self.height
    }

    pub fn new(width: u32, height: u32, data: Vec<u8>) -> (f: RgbFrame)
        requires
            data@.len() == 3 * width * height,
        ensures
            f.width == width,
            f.height == height,
            f.data == data,
            f.wf(),
    {
        RgbFrame { width, height, data }
    }
}

} // verus!
