#![allow(non_camel_case_types)]

use vstd::prelude::*;

verus! {

/// Number of colors in the 8-bit sRGB gamut.
pub const GAMUT_SIZE: u32 = 16777216;

/// A standard, gamma-encoded RGB color with 8 bits per channel.
#[derive(Clone, Copy, Debug, PartialEq, Eq, Structural, Hash)]
pub struct sRGB {
    pub r: u8,
    pub g: u8,
    pub b: u8,
}

/// Position of a color in the enumeration of the gamut: `r` is the most
/// significant channel, `b` the least.
pub open spec fn index_of(c: sRGB) -> int {
    c.r as int * 65536 + c.g as int * 256 + c.b as int
}

/// The color at position `i` of the enumeration of the gamut.
pub open spec fn color_at(i: int) -> sRGB {
    sRGB { r: (i / 65536) as u8, g: ((i / 256) % 256) as u8, b: (i % 256) as u8 }
}

/// The smallest of three channel values.
pub open spec fn min3(x: u8, y: u8, z: u8) -> u8 {
    if x <= y && x <= z {
        x
    } else if y <= z {
        y
    } else {
        z
    }
}

/// The largest of three channel values.
pub open spec fn max3(x: u8, y: u8, z: u8) -> u8 {
    if x >= y && x >= z {
        x
    } else if y >= z {
        y
    } else {
        z
    }
}

/// The enumeration of the gamut visits each color exactly once: every color
/// has a position in range that leads back to it, and every position in
/// range is the position of the color found there.
pub proof fn lemma_enumeration_bijective(c: sRGB, i: int)
    requires
        0 <= i < GAMUT_SIZE,
    ensures
        0 <= index_of(c) < GAMUT_SIZE,
        color_at(index_of(c)) == c,
        index_of(color_at(i)) == i,
{
    let (r, g, b) = (c.r as int, c.g as int, c.b as int);
    assert(0 <= r * 65536 + g * 256 + b < 16777216) by (nonlinear_arith)
        requires
            0 <= r < 256,
            0 <= g < 256,
            0 <= b < 256,
    ;
    assert((r * 65536 + g * 256 + b) / 65536 == r && ((r * 65536 + g * 256 + b) / 256) % 256 == g
        && (r * 65536 + g * 256 + b) % 256 == b) by (nonlinear_arith)
        requires
            0 <= r < 256,
            0 <= g < 256,
            0 <= b < 256,
    ;
    assert((i / 65536) * 65536 + ((i / 256) % 256) * 256 + i % 256 == i && 0 <= i / 65536 < 256)
        by (nonlinear_arith)
        requires
            0 <= i < 16777216,
    ;
}

impl sRGB {
    pub fn new(input_r: u8, input_g: u8, input_b: u8) -> (c: Self)
        ensures
            c.r == input_r,
            c.g == input_g,
            c.b == input_b,
    {
        sRGB { r: input_r, g: input_g, b: input_b }
    }

    /// The smallest of the three channels.
    pub fn min(self) -> (m: u8)
        ensures
            m == min3(self.r, self.g, self.b),
    {
        let rg = if self.r <= self.g {
            self.r
        } else {
            self.g
        };
        if rg <= self.b {
            rg
        } else {
            self.b
        }
    }

    /// The largest of the three channels.
    pub fn max(self) -> (m: u8)
        ensures
            m == max3(self.r, self.g, self.b),
    {
        let rg = if self.r >= self.g {
            self.r
        } else {
            self.g
        };
        if rg >= self.b {
            rg
        } else {
            self.b
        }
    }

    /// Position of this color in the enumeration of the gamut.
    pub fn index(self) -> (i: u32)
        ensures
            i as int == index_of(self),
            i < GAMUT_SIZE,
    {
        self.r as u32 * 65536 + self.g as u32 * 256 + self.b as u32
    }

    /// The color at position `i` of the enumeration of the gamut.
    pub fn from_index(i: u32) -> (c: Self)
        requires
            i < GAMUT_SIZE,
        ensures
            c == color_at(i as int),
    {
        sRGB { r: (i / 65536) as u8, g: ((i / 256) % 256) as u8, b: (i % 256) as u8 }
    }

    /// Every color of the gamut, in the order (0, 0, 0), (0, 0, 1), ...,
    /// (0, 0, 255), (0, 1, 0), ..., (255, 255, 255).
    pub fn all_colors() -> (v: Vec<Self>)
        ensures
            v@.len() == GAMUT_SIZE,
            forall|i: int| 0 <= i < GAMUT_SIZE ==> #[trigger] v@[i] == color_at(i),
    {
        let mut v: Vec<Self> = Vec::new();
        let mut i: u32 = 0;
        while i < GAMUT_SIZE
            invariant
                i <= GAMUT_SIZE,
                v@.len() == i,
                forall|j: int| 0 <= j < i ==> #[trigger] v@[j] == color_at(j),
            decreases GAMUT_SIZE - i,
        {
            v.push(Self::from_index(i));
            i = i + 1;
        }
        v
    }

    /// The eight colors whose channels are each 0 or 255, in gamut order.
    pub fn corners() -> (v: Vec<Self>)
        ensures
            v@ == seq![
                sRGB { r: 0, g: 0, b: 0 },
                sRGB { r: 0, g: 0, b: 255 },
                sRGB { r: 0, g: 255, b: 0 },
                sRGB { r: 0, g: 255, b: 255 },
                sRGB { r: 255, g: 0, b: 0 },
                sRGB { r: 255, g: 0, b: 255 },
                sRGB { r: 255, g: 255, b: 0 },
                sRGB { r: 255, g: 255, b: 255 },
            ],
    {
        let mut v: Vec<Self> = Vec::new();
        v.push(sRGB { r: 0, g: 0, b: 0 });
        v.push(sRGB { r: 0, g: 0, b: 255 });
        v.push(sRGB { r: 0, g: 255, b: 0 });
        v.push(sRGB { r: 0, g: 255, b: 255 });
        v.push(sRGB { r: 255, g: 0, b: 0 });
        v.push(sRGB { r: 255, g: 0, b: 255 });
        v.push(sRGB { r: 255, g: 255, b: 0 });
        v.push(sRGB { r: 255, g: 255, b: 255 });
        v
    }
}

impl Default for sRGB {
    /// Pure black.
    fn default() -> (c: Self)
        ensures
            c == (sRGB { r: 0, g: 0, b: 0 }),
    {
        sRGB { r: 0, g: 0, b: 0 }
    }
}

} // verus!
