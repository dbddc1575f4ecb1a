//! A single pixel: its coordinates and its color channels.
use vstd::prelude::*;

use crate::color::ascii_text;
use crate::text::{decimal, push_char, push_decimal};

verus! {

/// A pixel at `(x, y)` with red, green and blue channels.
#[derive(Clone, Copy, Debug, PartialEq, Eq, Structural)]
pub struct Pixel {
    pub x: u32,
    pub y: u32,
    pub r: u8,
    pub g: u8,
    pub b: u8,
}

/// The channels as `"r g b"` in decimal.
pub open spec fn rgb_text(r: u8, g: u8, b: u8) -> Seq<u8> {
    decimal(r as nat) + seq![32u8] + decimal(g as nat) + seq![32u8] + decimal(b as nat)
}

impl Pixel {
    pub fn new(x: u32, y: u32, r: u8, g: u8, b: u8) -> (p: Pixel)
        ensures
            p == (Pixel { x, y, r, g, b }),
    {
        Pixel { x, y, r, g, b }
    }

    /// Replaces the color channels; the coordinates stay.
    pub fn set_color(&mut self, r: u8, g: u8, b: u8)
        ensures
            *final(self) == (Pixel { r, g, b, ..*old(self) }),
    {
        self.r = r;
        self.g = g;
        self.b = b;
    }

    /// The channels as `"r g b"` in decimal (see [`rgb_text`]).
    pub fn as_string(&self) -> (s: String)
        ensures
            s@ == ascii_text(rgb_text(self.r, self.g, self.b)),
    {
        let mut bytes: Vec<u8> = Vec::new();
        push_decimal(&mut bytes, self.r as u64);
        bytes.push(32);
        push_decimal(&mut bytes, self.g as u64);
        bytes.push(32);
        push_decimal(&mut bytes, self.b as u64);
        proof {
            assert(bytes@ =~= rgb_text(self.r, self.g, self.b));
        }
        let mut s = String::new();
        let mut i: usize = 0;
        while i < bytes.len()
            invariant
                i <= bytes@.len(),
                s@ == ascii_text(bytes@.subrange(0, i as int)),
            decreases bytes@.len() - i,
        {
            push_char(&mut s, bytes[i] as char);
            proof {
                assert(s@ =~= ascii_text(bytes@.subrange(0, i + 1)));
            }
            i = i + 1;
        }
        proof {
            assert(bytes@.subrange(0, bytes@.len() as int) =~= bytes@);
        }
        s
    }
}

} // verus!
