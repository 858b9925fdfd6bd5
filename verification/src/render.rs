//! Render configuration and image assembly.
//!
//! The sampling loops run outside the verified core (they draw random
//! numbers and average in floating point), but the final step — routing
//! each computed column into its correct slot of the row-major image grid,
//! whatever order the workers finished in — is pinned down here.

use vstd::prelude::*;

use crate::color::{Rgb, bounded_rgb};
use crate::fixed::tdiv;

verus! {

/// Image and sampling dimensions of one render.
#[derive(Clone, Copy, PartialEq, Eq, Structural, Debug)]
pub struct Renderer {
    pub width: u32,
    pub height: u32,
    pub samples_per_pixel: u32,
    pub max_reflections: u32,
}

/// The mean of a pixel's accumulated sample sum: each channel divided by
/// the sample count, truncating toward zero.
pub fn average_samples(sum: Rgb, samples: u32) -> (r: Rgb)
    requires
        samples >= 1,
        bounded_rgb(sum, 0x2000_0000_0000_0000),
    ensures
        r.red == tdiv(sum.red as int, samples as int),
        r.green == tdiv(sum.green as int, samples as int),
        r.blue == tdiv(sum.blue as int, samples as int),
{
    proof {
        crate::fixed::lemma_tdiv_bounds(sum.red as int, samples as int);
        crate::fixed::lemma_tdiv_bounds(sum.green as int, samples as int);
        crate::fixed::lemma_tdiv_bounds(sum.blue as int, samples as int);
    }
    Rgb {
        red: crate::fixed::div_trunc(sum.red as i128, samples as i128) as i64,
        green: crate::fixed::div_trunc(sum.green as i128, samples as i128) as i64,
        blue: crate::fixed::div_trunc(sum.blue as i128, samples as i128) as i64,
    }
}

/// Route per-column results into a row-major grid: the output pixel at
/// column `i` of row `j` is entry `j` of column `i`, for every column and
/// row, regardless of how the columns were produced.
pub fn assemble<T: Copy>(columns: &Vec<Vec<T>>, width: usize, height: usize) -> (r: Vec<T>)
    requires
        columns@.len() == width,
        forall|i: int| 0 <= i < width ==> (#[trigger] columns@[i])@.len() == height,
        width * height <= 0x4000_0000,
    ensures
        r@.len() == width * height,
        forall|i: int, j: int|
            0 <= i < width && 0 <= j < height ==> r@[j * (width as int) + i]
                == #[trigger] columns@[i]@[j],
{
    let mut out: Vec<T> = Vec::new();
    let mut j: usize = 0;
    while j < height
        invariant
            columns@.len() == width,
            forall|i: int| 0 <= i < width ==> (#[trigger] columns@[i])@.len() == height,
            width * height <= 0x4000_0000,
            0 <= j <= height,
            out@.len() == j * width,
            forall|k: int|
                0 <= k < out@.len() ==> #[trigger] out@[k] == (columns@[k % (
                width as int)])@[k / (width as int)],
        decreases height - j,
    {
        let mut i: usize = 0;
        proof {
            assert((j + 1) * width <= height * width) by (nonlinear_arith)
                requires
                    j + 1 <= height,
                    width >= 0,
            ;
            assert(height * width == width * height) by (nonlinear_arith);
        }
        while i < width
            invariant
                columns@.len() == width,
                forall|ii: int| 0 <= ii < width ==> (#[trigger] columns@[ii])@.len() == height,
                width * height <= 0x4000_0000,
                0 <= j < height,
                0 <= i <= width,
                (j + 1) * width <= width * height,
                out@.len() == j * width + i,
                forall|k: int|
                    0 <= k < out@.len() ==> #[trigger] out@[k] == (columns@[k % (
                    width as int)])@[k / (width as int)],
            decreases width - i,
        {
            proof {
                assert(j * width + i < (j + 1) * width) by (nonlinear_arith)
                    requires
                        i < width,
                ;
                vstd::arithmetic::div_mod::lemma_fundamental_div_mod_converse(
                    j * width + i, width as int, j as int, i as int);
            }
            let cell = *columns.get(i).unwrap().get(j).unwrap();
            out.push(cell);
            i = i + 1;
        }
        j = j + 1;
        proof {
            assert(j * width == (j - 1) * width + width) by (nonlinear_arith);
        }
    }
    proof {
        assert(out@.len() == height * width) by (nonlinear_arith)
            requires
                out@.len() == (height as int) * (width as int),
        ;
        assert(height * width == width * height) by (nonlinear_arith);
        assert forall|i: int, j: int| 0 <= i < width && 0 <= j < height implies out@[j * (
        width as int) + i] == #[trigger] columns@[i]@[j] by {
            assert(j * (width as int) + i < width * height) by (nonlinear_arith)
                requires
                    0 <= i < width,
                    0 <= j < height,
            ;
            assert(0 <= j * (width as int) + i) by (nonlinear_arith)
                requires
                    0 <= i,
                    0 <= j,
                    width >= 0,
            ;
            vstd::arithmetic::div_mod::lemma_fundamental_div_mod_converse(j * (width as int) + i,
                width as int, j, i);
        }
    }
    out
}

} // verus!
