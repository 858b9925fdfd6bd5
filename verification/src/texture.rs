//! Texture coordinates and nearest-pixel textures.

use vstd::prelude::*;

use crate::color::Rgb;
use crate::fixed::SCALE;

verus! {

/// A fixed-point UV coordinate pair.
#[derive(Clone, Copy, PartialEq, Eq, Structural, Debug)]
pub struct TextureCoords {
    pub x: i64,
    pub y: i64,
}

impl TextureCoords {
    pub fn new(x: i64, y: i64) -> (r: TextureCoords)
        ensures
            r == (TextureCoords { x, y }),
    {
        TextureCoords { x, y }
    }
}

impl Default for TextureCoords {
    fn default() -> (r: TextureCoords)
        ensures
            r == (TextureCoords { x: 0, y: 0 }),
    {
        TextureCoords { x: 0, y: 0 }
    }
}

/// A pixel grid sampled by nearest-pixel lookup with wraparound.
#[derive(Clone, PartialEq, Eq, Debug)]
pub struct Texture {
    pub width: usize,
    pub height: usize,
    pub pixels: Vec<Rgb>,
}

/// The grid is non-degenerate and fully populated.
pub open spec fn texture_wf(t: Texture) -> bool {
    &&& 1 <= t.width < 0x8000
    &&& 1 <= t.height < 0x8000
    &&& t.pixels@.len() == t.width * t.height
}

/// Clamp below at zero.
pub open spec fn at_least_zero(v: int) -> int {
    if v >= 0 {
        v
    } else {
        0
    }
}

/// The pixel column a `u` coordinate selects: scale by the width, truncate,
/// wrap around.
pub open spec fn texel_x(t: Texture, u: int) -> int {
    (at_least_zero(u) * t.width / (SCALE as int)) % (t.width as int)
}

/// The pixel row a `v` coordinate selects: the vertical axis is flipped
/// (the row index scales with `1 - v`) before truncation and wraparound.
pub open spec fn texel_y(t: Texture, v: int) -> int {
    (at_least_zero(SCALE - v) * t.height / (SCALE as int)) % (t.height as int)
}

impl Texture {
    /// Build a texture from a row-major pixel grid.
    pub fn new(width: usize, height: usize, pixels: Vec<Rgb>) -> (r: Texture)
        requires
            1 <= width < 0x8000,
            1 <= height < 0x8000,
            pixels@.len() == width * height,
        ensures
            r == (Texture { width, height, pixels }),
            texture_wf(r),
    {
        Texture { width, height, pixels }
    }

    /// Nearest-pixel lookup with wraparound.
    pub fn sample_at(&self, coords: TextureCoords) -> (r: Rgb)
        requires
            texture_wf(*self),
            -0x1_0000_0000 <= coords.x <= 0x1_0000_0000,
            -0x1_0000_0000 <= coords.y <= 0x1_0000_0000,
        ensures
            r == self.pixels@[texel_x(*self, coords.x as int) + texel_y(*self, coords.y as int)
                * self.width],
    {
        let cx: i64 = if coords.x >= 0 { coords.x } else { 0 };
        let flip: i64 = SCALE - coords.y;
        let cy: i64 = if flip >= 0 { flip } else { 0 };
        proof {
            lemma_texel_in_range(self.width as int, cx as int);
            lemma_texel_in_range(self.height as int, cy as int);
        }
        let ix = ((cx as i128 * self.width as i128 / SCALE as i128) % self.width as i128)
            as usize;
        let iy = ((cy as i128 * self.height as i128 / SCALE as i128) % self.height as i128)
            as usize;
        proof {
            assert(ix < self.width);
            assert(iy < self.height);
            assert(ix + iy * self.width < self.width * self.height) by (nonlinear_arith)
                requires
                    ix < self.width,
                    iy < self.height,
                    self.width >= 1,
            ;
            assert(iy * self.width < 0x4000_0000) by (nonlinear_arith)
                requires
                    iy < 0x8000,
                    self.width < 0x8000,
            ;
        }
        self.pixels[ix + iy * self.width]
    }
}

/// The scaled-and-wrapped texel index stays inside the axis size.
proof fn lemma_texel_in_range(size: int, c: int)
    requires
        1 <= size < 0x8000,
        0 <= c <= 0x2_0000_0001,
    ensures
        0 <= (c * size / (SCALE as int)) % size < size,
        c * size / (SCALE as int) >= 0,
        c * size <= 0x1_0000_0000_8000,
{
    assert(0 <= c * size <= 0x1_0000_0000_8000) by (nonlinear_arith)
        requires
            0 <= c <= 0x2_0000_0001,
            1 <= size < 0x8000,
    ;
    vstd::arithmetic::div_mod::lemma_div_pos_is_pos(c * size, SCALE as int);
    vstd::arithmetic::div_mod::lemma_mod_bound(c * size / (SCALE as int), size);
}

} // verus!
