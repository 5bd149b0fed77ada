//! A grain of sand for the plain grid: a display character and a hue.
//!
//! The color is modelled as a hue in whole degrees (`0..360`); the renderer
//! applies the fixed saturation and lightness when it converts the hue to an
//! on-screen color. When the simulation moves a grain, the same `Block` value
//! travels: no new character or hue is drawn.

use vstd::prelude::*;

verus! {

/// `c` is an ASCII lowercase letter.
pub open spec fn is_lowercase_letter(c: char) -> bool {
    97 <= c as u32 <= 122
}

/// `c` is an ASCII uppercase letter.
pub open spec fn is_uppercase_letter(c: char) -> bool {
    65 <= c as u32 <= 90
}

/// `c` is an ASCII letter.
pub open spec fn is_letter(c: char) -> bool {
    is_lowercase_letter(c) || is_uppercase_letter(c)
}

#[derive(Clone, Copy, Debug, PartialEq, Eq, Structural)]
pub struct Block {
    pub character: char,
    pub hue: u16,
}

impl Block {
    /// The hue is a whole number of degrees on the color wheel.
    pub open spec fn wf(self) -> bool {
        self.hue < 360
    }

    /// A fresh grain: a random letter and a random hue.
    pub fn new() -> (b: Block)
        ensures
            b.wf(),
            is_letter(b.character),
    {
        let hue = rand::random::<u16>() % 360;
        let c = rand::random::<u8>() % 52;
        let character = if c < 26 {
            (c + 97) as char
        } else {
            (c - 26 + 65) as char
        };
        Block { character, hue }
    }
}

} // verus!
