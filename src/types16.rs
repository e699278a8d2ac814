use crate::types::{signed_byte, Range};
use vstd::prelude::*;

verus! {

/// A pixel with four 16-bit channels.
#[derive(Clone, Copy, Debug, PartialEq, Eq, PartialOrd, Structural)]
pub struct Pixel16 {
    pub r: u16,
    pub g: u16,
    pub b: u16,
    pub a: u16,
}

impl Default for Pixel16 {
    fn default() -> (p: Pixel16)
        ensures
            p == (Pixel16 { r: 0, g: 0, b: 0, a: 0 }),
    {
        Pixel16 { r: 0, g: 0, b: 0, a: 0 }
    }
}

/// The cache slot of a 16-bit pixel.
pub open spec fn pixel16_hash(p: Pixel16) -> int {
    (3 * p.r + 5 * p.g + 6 * p.b + 11 * p.a) % 64
}

impl Pixel16 {
    pub fn new(r: u16, g: u16, b: u16, a: u16) -> (p: Pixel16)
        ensures
            p == (Pixel16 { r, g, b, a }),
    {
        Pixel16 { r, g, b, a }
    }

    pub fn extract(&self) -> (t: (u16, u16, u16, u16))
        ensures
            t == (self.r, self.g, self.b, self.a),
    {
        (self.r, self.g, self.b, self.a)
    }

    pub fn hash(&self) -> (h: u8)
        ensures
            h == pixel16_hash(*self),
            h < 64,
    {
        ((self.r as u32 * 3 + self.g as u32 * 5 + self.b as u32 * 6 + self.a as u32 * 11) % 64) as u8
    }
}

/// `x - y` reduced to one signed byte, wrapping modulo 256.
fn wrapping_diff16(x: u16, y: u16) -> (d: i8)
    ensures
        d == signed_byte(x - y),
{
    let m: u32 = (x as u32 + 0x1_0000 - y as u32) % 256;
    assert(m == (x - y) % 256) by {
        vstd::arithmetic::div_mod::lemma_mod_multiples_vanish(256, x - y, 256);
    }
    if m < 128 {
        m as i8
    } else {
        (m as i16 - 256) as i8
    }
}

/// A channel-wise difference between two 16-bit pixels, one signed byte per
/// channel.
#[derive(Clone, Copy, Debug, PartialEq, Eq, Structural)]
pub struct PixelDiff16 {
    pub r: i8,
    pub g: i8,
    pub b: i8,
    pub a: i8,
}

impl PixelDiff16 {
    /// The difference `p1 - p2`, each channel wrapped to a signed byte.
    pub fn new(p1: &Pixel16, p2: &Pixel16) -> (d: PixelDiff16)
        ensures
            d.r == signed_byte(p1.r - p2.r),
            d.g == signed_byte(p1.g - p2.g),
            d.b == signed_byte(p1.b - p2.b),
            d.a == signed_byte(p1.a - p2.a),
    {
        PixelDiff16 {
            r: wrapping_diff16(p1.r, p2.r),
            g: wrapping_diff16(p1.g, p2.g),
            b: wrapping_diff16(p1.b, p2.b),
            a: wrapping_diff16(p1.a, p2.a),
        }
    }

    pub fn new2(r: i8, g: i8, b: i8, a: i8) -> (d: PixelDiff16)
        ensures
            d == (PixelDiff16 { r, g, b, a }),
    {
        PixelDiff16 { r, g, b, a }
    }

    /// For pixels whose alpha differs: the green step, and the red and blue
    /// steps divided by it; `None` where alpha is the same. Each step must be
    /// non-negative and fit a signed byte, and the green one must be nonzero.
    pub fn new_diff(p1: &Pixel16, p2: &Pixel16) -> (d: Option<PixelDiff16>)
        requires
            p1.a != p2.a ==> {
                &&& p2.g < p1.g <= p2.g + 127
                &&& p2.r <= p1.r
                &&& p2.b <= p1.b
                &&& (p1.r - p2.r) / (p1.g - p2.g) <= 127
                &&& (p1.b - p2.b) / (p1.g - p2.g) <= 127
            },
        ensures
            p1.a == p2.a ==> d is None,
            p1.a != p2.a ==> d == Some(
                PixelDiff16 {
                    g: (p1.g - p2.g) as i8,
                    r: ((p1.r - p2.r) / (p1.g - p2.g)) as i8,
                    b: ((p1.b - p2.b) / (p1.g - p2.g)) as i8,
                    a: 0,
                },
            ),
    {
        if p1.a == p2.a {
            None
        } else {
            let dg: u16 = p1.g - p2.g;
            Some(
                PixelDiff16 {
                    g: dg as i8,
                    r: ((p1.r - p2.r) / dg) as i8,
                    b: ((p1.b - p2.b) / dg) as i8,
                    a: 0,
                },
            )
        }
    }

    /// Whether every channel lies within the range's bounds, both included.
    pub fn belongs(&self, range: Range<PixelDiff16>) -> (b: bool)
        ensures
            b == (range.lower_limit.r <= self.r <= range.upper_limit.r && range.lower_limit.g
                <= self.g <= range.upper_limit.g && range.lower_limit.b <= self.b
                <= range.upper_limit.b && range.lower_limit.a <= self.a <= range.upper_limit.a),
    {
        self.r >= range.lower_limit.r && self.g >= range.lower_limit.g && self.b
            >= range.lower_limit.b && self.a >= range.lower_limit.a && self.r
            <= range.upper_limit.r && self.g <= range.upper_limit.g && self.b
            <= range.upper_limit.b && self.a <= range.upper_limit.a
    }

    pub fn extract(&self) -> (t: (i8, i8, i8, i8))
        ensures
            t == (self.r, self.g, self.b, self.a),
    {
        (self.r, self.g, self.b, self.a)
    }
}

} // verus!
