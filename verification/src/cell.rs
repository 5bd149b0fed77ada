//! A grain of sand for the interactive engine: a display glyph drawn from
//! the classes the caller enables (lowercase, uppercase, digits, symbols)
//! and a hue in whole degrees. As with [`crate::block::Block`], the renderer
//! applies the fixed saturation and lightness, and a moving grain carries
//! its glyph and hue with it.

use vstd::prelude::*;
use crate::block::{is_lowercase_letter, is_uppercase_letter};

verus! {

/// `c` is an ASCII digit.
pub open spec fn is_digit_char(c: char) -> bool {
    48 <= c as u32 <= 57
}

/// `c` is one of the symbols painted when all four glyph classes are
/// enabled.
pub open spec fn is_basic_symbol(c: char) -> bool {
    ||| c == '!'
    ||| c == '@'
    ||| c == '#'
    ||| c == '$'
    ||| c == '%'
    ||| c == '^'
    ||| c == '&'
    ||| c == '*'
    ||| c == '('
    ||| c == ')'
    ||| c == '_'
    ||| c == '+'
    ||| c == '-'
    ||| c == '='
    ||| c == '['
    ||| c == ']'
    ||| c == '{'
    ||| c == '}'
    ||| c == '|'
    ||| c == ';'
    ||| c == ':'
    ||| c == '\''
    ||| c == ','
    ||| c == '.'
    ||| c == '<'
    ||| c == '>'
    ||| c == '?'
    ||| c == '/'
}

/// `c` is one of the symbols painted when only the symbol class is enabled
/// (the basic set plus four extra characters).
pub open spec fn is_full_symbol(c: char) -> bool {
    ||| is_basic_symbol(c)
    ||| c == '`'
    ||| c == '~'
    ||| c == '"'
    ||| c == '\\'
}

/// Which glyphs a fresh cell may show, given the enabled classes. The
/// classes combine exactly as the painter draws them: all four, the three
/// letter/digit classes, both letter cases, then each single class on its
/// own; with no class enabled the replacement character is used.
pub open spec fn glyph_allowed(
    lower: bool,
    upper: bool,
    number: bool,
    symbol: bool,
    c: char,
) -> bool {
    if lower && upper && number && symbol {
        is_lowercase_letter(c) || is_uppercase_letter(c) || is_digit_char(c) || is_basic_symbol(c)
    } else if lower && upper && number {
        is_lowercase_letter(c) || is_uppercase_letter(c) || is_digit_char(c)
    } else if lower && upper {
        is_lowercase_letter(c) || is_uppercase_letter(c)
    } else if lower {
        is_lowercase_letter(c)
    } else if upper {
        is_uppercase_letter(c)
    } else if number {
        is_digit_char(c)
    } else if symbol {
        is_full_symbol(c)
    } else {
        c == '\u{FFFD}'
    }
}

#[derive(Clone, Copy, Debug, PartialEq, Eq, Structural)]
pub struct Cell {
    pub glyph: char,
    pub hue: u16,
}

/// A random lowercase letter.
fn random_lowercase() -> (c: char)
    ensures
        is_lowercase_letter(c),
{
    (rand::random::<u8>() % 26 + 97) as char
}

/// A random uppercase letter.
fn random_uppercase() -> (c: char)
    ensures
        is_uppercase_letter(c),
{
    (rand::random::<u8>() % 26 + 65) as char
}

/// A random digit.
fn random_digit() -> (c: char)
    ensures
        is_digit_char(c),
{
    (rand::random::<u8>() % 10 + 48) as char
}

/// The symbol at the given index of the basic set.
fn basic_symbol(i: u8) -> (c: char)
    requires
        i < 28,
    ensures
        is_basic_symbol(c),
{
    match i {
        0 => '!',
        1 => '@',
        2 => '#',
        3 => '$',
        4 => '%',
        5 => '^',
        6 => '&',
        7 => '*',
        8 => '(',
        9 => ')',
        10 => '_',
        11 => '+',
        12 => '-',
        13 => '=',
        14 => '[',
        15 => ']',
        16 => '{',
        17 => '}',
        18 => '|',
        19 => ';',
        20 => ':',
        21 => '\'',
        22 => ',',
        23 => '.',
        24 => '<',
        25 => '>',
        26 => '?',
        _ => '/',
    }
}

/// A random symbol of the basic set.
fn random_basic_symbol() -> (c: char)
    ensures
        is_basic_symbol(c),
{
    basic_symbol(rand::random::<u8>() % 28)
}

/// A random symbol of the full set.
fn random_full_symbol() -> (c: char)
    ensures
        is_full_symbol(c),
{
    let i = rand::random::<u8>() % 32;
    if i < 28 {
        basic_symbol(i)
    } else {
        match i {
            28 => '`',
            29 => '~',
            30 => '"',
            _ => '\\',
        }
    }
}

impl Cell {
    /// The hue is a whole number of degrees on the color wheel.
    pub open spec fn wf(self) -> bool {
        self.hue < 360
    }

    /// A fresh grain: a random hue, and a random glyph from the enabled
    /// classes.
    pub fn new(lower: bool, upper: bool, number: bool, symbol: bool) -> (cell: Cell)
        ensures
            cell.wf(),
            glyph_allowed(lower, upper, number, symbol, cell.glyph),
    {
        let hue = rand::random::<u16>() % 360;
        let glyph = if lower && upper && number && symbol {
            let choice = rand::random::<u8>() % 4;
            if choice == 0 {
                random_lowercase()
            } else if choice == 1 {
                random_uppercase()
            } else if choice == 2 {
                random_digit()
            } else {
                random_basic_symbol()
            }
        } else if lower && upper && number {
            let choice = rand::random::<u8>() % 3;
            if choice == 0 {
                random_lowercase()
            } else if choice == 1 {
                random_uppercase()
            } else {
                random_digit()
            }
        } else if lower && upper {
            let choice = rand::random::<u8>() % 2;
            if choice == 0 {
                random_lowercase()
            } else {
                random_uppercase()
            }
        } else if lower {
            random_lowercase()
        } else if upper {
            random_uppercase()
        } else if number {
            random_digit()
        } else if symbol {
            random_full_symbol()
        } else {
            '\u{FFFD}'
        };
        Cell { glyph, hue }
    }
}

} // verus!
