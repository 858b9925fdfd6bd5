//! Linear-space colors as fixed-point RGB triples.

use vstd::prelude::*;

use crate::fixed::{tdiv, SCALE};

verus! {

/// A linear-space color; `SCALE` is full intensity in a channel.
#[derive(Clone, Copy, PartialEq, Eq, Structural, Debug)]
pub struct Rgb {
    pub red: i64,
    pub green: i64,
    pub blue: i64,
}

/// Channels within `[-b, b]`.
pub open spec fn bounded_rgb(c: Rgb, b: int) -> bool {
    -b <= c.red <= b && -b <= c.green <= b && -b <= c.blue <= b
}

impl Rgb {
    pub fn new(red: i64, green: i64, blue: i64) -> (r: Rgb)
        ensures
            r == (Rgb { red, green, blue }),
    {
        Rgb { red, green, blue }
    }

    /// Channelwise sum.
    pub fn plus(self, other: Rgb) -> (r: Rgb)
        requires
            bounded_rgb(self, 0x2000_0000_0000_0000),
            bounded_rgb(other, 0x2000_0000_0000_0000),
        ensures
            r.red == self.red + other.red,
            r.green == self.green + other.green,
            r.blue == self.blue + other.blue,
    {
        Rgb { red: self.red + other.red, green: self.green + other.green, blue: self.blue
            + other.blue }
    }

    /// Scale every channel by a fixed-point factor.
    pub fn scaled(self, s: i64) -> (r: Rgb)
        requires
            bounded_rgb(self, 0x3f_ffff_ffff),
            -0x3f_ffff_ffff <= s <= 0x3f_ffff_ffff,
        ensures
            r.red == tdiv(self.red * s, SCALE as int),
            r.green == tdiv(self.green * s, SCALE as int),
            r.blue == tdiv(self.blue * s, SCALE as int),
    {
        proof {
            crate::types::lemma_prod_bound(self.red as int, s as int, 0x3f_ffff_ffff);
            crate::types::lemma_prod_bound(self.green as int, s as int, 0x3f_ffff_ffff);
            crate::types::lemma_prod_bound(self.blue as int, s as int, 0x3f_ffff_ffff);
        }
        Rgb {
            red: crate::fixed::scale_down(self.red as i128 * s as i128),
            green: crate::fixed::scale_down(self.green as i128 * s as i128),
            blue: crate::fixed::scale_down(self.blue as i128 * s as i128),
        }
    }

    /// Channelwise product of two colors.
    pub fn modulate(self, other: Rgb) -> (r: Rgb)
        requires
            bounded_rgb(self, 0x3f_ffff_ffff),
            bounded_rgb(other, 0x3f_ffff_ffff),
        ensures
            r.red == tdiv(self.red * other.red, SCALE as int),
            r.green == tdiv(self.green * other.green, SCALE as int),
            r.blue == tdiv(self.blue * other.blue, SCALE as int),
    {
        proof {
            crate::types::lemma_prod_bound(self.red as int, other.red as int, 0x3f_ffff_ffff);
            crate::types::lemma_prod_bound(self.green as int, other.green as int, 0x3f_ffff_ffff);
            crate::types::lemma_prod_bound(self.blue as int, other.blue as int, 0x3f_ffff_ffff);
        }
        Rgb {
            red: crate::fixed::scale_down(self.red as i128 * other.red as i128),
            green: crate::fixed::scale_down(self.green as i128 * other.green as i128),
            blue: crate::fixed::scale_down(self.blue as i128 * other.blue as i128),
        }
    }

    /// Clamp every channel into `[0, SCALE]`.
    pub fn clamped(self) -> (r: Rgb)
        ensures
            r.red == crate::fixed::imax(0, crate::fixed::imin(self.red as int, SCALE as int)),
            r.green == crate::fixed::imax(0, crate::fixed::imin(self.green as int, SCALE as int)),
            r.blue == crate::fixed::imax(0, crate::fixed::imin(self.blue as int, SCALE as int)),
    {
        let clamp = |v: i64| -> (w: i64)
            ensures
                w == crate::fixed::imax(0, crate::fixed::imin(v as int, SCALE as int)),
            {
                if v < 0 {
                    0
                } else if v > SCALE {
                    SCALE
                } else {
                    v
                }
            };
        Rgb { red: clamp(self.red), green: clamp(self.green), blue: clamp(self.blue) }
    }
}

impl Default for Rgb {
    /// Black.
    fn default() -> (r: Rgb)
        ensures
            r == (Rgb { red: 0, green: 0, blue: 0 }),
    {
        Rgb { red: 0, green: 0, blue: 0 }
    }
}

} // verus!
