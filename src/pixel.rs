//! An RGB colour with 8 bits per channel.
use vstd::prelude::*;

use crate::decimal::{append_decimal, dec_chars};

verus! {

/// One pixel: red, green and blue channels, each 0 to 255.
#[derive(Debug, Clone, Copy, PartialEq, Eq, Structural)]
pub struct Pixel {
    pub r: u8,
    pub g: u8,
    pub b: u8,
}

/// Mean of the three channels, rounded down.
pub open spec fn grey_of(r: u8, g: u8, b: u8) -> u8 {
    ((r as int + g as int + b as int) / 3) as u8
}

impl Pixel {
    /// The channels complemented: 255 minus each.
    pub open spec fn inverted(self) -> Pixel {
        Pixel { r: (255 - self.r) as u8, g: (255 - self.g) as u8, b: (255 - self.b) as u8 }
    }

    /// Each channel set to the mean of the three.
    pub open spec fn greyed(self) -> Pixel {
        let v = grey_of(self.r, self.g, self.b);
        Pixel { r: v, g: v, b: v }
    }

    /// The text `"R, G, B"` in decimal.
    pub open spec fn shown(self) -> Seq<char> {
        dec_chars(self.r as nat) + seq![',', ' '] + dec_chars(self.g as nat) + seq![',', ' ']
            + dec_chars(self.b as nat)
    }

    /// Creates a pixel from its three channels.
    pub fn new(red: u8, green: u8, blue: u8) -> (p: Pixel)
        ensures
            p.r == red,
            p.g == green,
            p.b == blue,
    {
        Pixel { r: red, g: green, b: blue }
    }

    /// The red channel.
    pub fn red(&self) -> (v: u8)
        ensures
            v == self.r,
    {
        self.r
    }

    /// The green channel.
    pub fn green(&self) -> (v: u8)
        ensures
            v == self.g,
    {
        self.g
    }

    /// The blue channel.
    pub fn blue(&self) -> (v: u8)
        ensures
            v == self.b,
    {
        self.b
    }

    /// The channels as `"R, G, B"`.
    pub fn display(&self) -> (s: String)
        ensures
            s@ == self.shown(),
    {
        let mut s = String::new();
        append_decimal(&mut s, self.r);
        s.append(", ");
        append_decimal(&mut s, self.g);
        s.append(", ");
        append_decimal(&mut s, self.b);
        proof {
            reveal_strlit(", ");
            assert(s@ =~= self.shown());
        }
        s
    }

    /// The pixel with every channel complemented.
    pub fn invert(&self) -> (p: Pixel)
        ensures
            p == self.inverted(),
    {
        Pixel::new(255 - self.r, 255 - self.g, 255 - self.b)
    }

    /// The grey pixel of the same mean brightness.
    pub fn greyscale(&self) -> (p: Pixel)
        ensures
            p == self.greyed(),
    {
        let grey = ((self.r as u16 + self.g as u16 + self.b as u16) / 3) as u8;
        Pixel::new(grey, grey, grey)
    }

    /// Whether the two pixels have the same three channels.
    pub fn eq(self, other: Pixel) -> (same: bool)
        ensures
            same == (self == other),
    {
        self.r == other.r && self.g == other.g && self.b == other.b
    }
}

/// Complementing twice gives the pixel back.
pub proof fn lemma_invert_involutive(p: Pixel)
    ensures
        p.inverted().inverted() == p,
{
}

/// Turning a grey pixel grey again changes nothing.
pub proof fn lemma_greyscale_idempotent(p: Pixel)
    ensures
        p.greyed().greyed() == p.greyed(),
{
    let v = grey_of(p.r, p.g, p.b);
    assert((v as int + v as int + v as int) / 3 == v as int);
}

/// A grey pixel has three equal channels.
pub proof fn lemma_greyscale_uniform(p: Pixel)
    ensures
        p.greyed().r == p.greyed().g,
        p.greyed().g == p.greyed().b,
{
}

} // verus!
