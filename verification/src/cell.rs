//! A single terminal grid cell: character + style.

use vstd::prelude::*;

verus! {

/// A 24-bit colour.
#[derive(Clone, Copy, Debug, PartialEq, Eq, Structural)]
pub struct Rgb {
    pub r: u8,
    pub g: u8,
    pub b: u8,
}

impl Rgb {
    pub fn new(r: u8, g: u8, b: u8) -> (c: Rgb)
        ensures
            c == (Rgb { r, g, b }),
    {
        Rgb { r, g, b }
    }
}

/// Foreground colour a fresh cell and a fresh terminal start with.
pub open spec fn default_fg() -> Rgb {
    Rgb { r: 0xd8, g: 0xd8, b: 0xd8 }
}

/// Background colour a fresh cell and a fresh terminal start with.
pub open spec fn default_bg() -> Rgb {
    Rgb { r: 0x1e, g: 0x1e, b: 0x1e }
}

pub fn default_fg_color() -> (c: Rgb)
    ensures
        c == default_fg(),
{
    Rgb { r: 0xd8, g: 0xd8, b: 0xd8 }
}

pub fn default_bg_color() -> (c: Rgb)
    ensures
        c == default_bg(),
{
    Rgb { r: 0x1e, g: 0x1e, b: 0x1e }
}

/// Style bits of a cell. Each named constant below is one bit.
#[derive(Clone, Copy, Debug, PartialEq, Eq, Structural)]
pub struct CellFlags {
    pub bits: u16,
}

pub const BOLD: u16 = 0b0000_0000_0001;
pub const ITALIC: u16 = 0b0000_0000_0010;
pub const UNDERLINE: u16 = 0b0000_0000_0100;
pub const STRIKEOUT: u16 = 0b0000_0000_1000;
pub const INVERSE: u16 = 0b0000_0001_0000;
pub const HIDDEN: u16 = 0b0000_0010_0000;
pub const DIM: u16 = 0b0000_0100_0000;
/// Occupies two columns (CJK, emoji).
pub const WIDE_CHAR: u16 = 0b0000_1000_0000;
/// Trailing half of a wide character.
pub const WIDE_SPACER: u16 = 0b0001_0000_0000;
/// Rendering hint only.
pub const CURSOR: u16 = 0b0010_0000_0000;
/// Rendering hint only.
pub const SELECTED: u16 = 0b0100_0000_0000;

impl CellFlags {
    pub fn empty() -> (f: CellFlags)
        ensures
            f.bits == 0,
    {
        CellFlags { bits: 0 }
    }

    pub fn from_bits(bits: u16) -> (f: CellFlags)
        ensures
            f.bits == bits,
    {
        CellFlags { bits }
    }

    pub fn is_empty(&self) -> (b: bool)
        ensures
            b == (self.bits == 0),
    {
        self.bits == 0
    }

    /// True when every bit of `mask` is set.
    pub fn contains(&self, mask: u16) -> (b: bool)
        ensures
            b == (self.bits & mask == mask),
    {
        self.bits & mask == mask
    }

    /// These flags with every bit of `mask` added.
    pub fn with(self, mask: u16) -> (f: CellFlags)
        ensures
            f.bits == self.bits | mask,
    {
        CellFlags { bits: self.bits | mask }
    }

    /// These flags with every bit of `mask` cleared.
    pub fn without(self, mask: u16) -> (f: CellFlags)
        ensures
            f.bits == self.bits & !mask,
    {
        CellFlags { bits: self.bits & !mask }
    }
}

#[derive(Clone, Copy, Debug)]
pub struct Cell {
    pub c: char,
    pub fg: Rgb,
    pub bg: Rgb,
    pub flags: CellFlags,
}

/// The blank cell: a space in the default colours with no style.
pub open spec fn blank_cell() -> Cell {
    Cell { c: ' ', fg: default_fg(), bg: default_bg(), flags: CellFlags { bits: 0 } }
}

impl Default for Cell {
    fn default() -> (cell: Cell)
        ensures
            cell == blank_cell(),
    {
        Cell { c: ' ', fg: default_fg_color(), bg: default_bg_color(), flags: CellFlags { bits: 0 } }
    }
}

impl Cell {
    pub fn blank() -> (cell: Cell)
        ensures
            cell == blank_cell(),
    {
        Cell { c: ' ', fg: default_fg_color(), bg: default_bg_color(), flags: CellFlags { bits: 0 } }
    }

    /// A cell is empty when it holds a space and carries no style bits.
    pub fn is_empty(&self) -> (b: bool)
        ensures
            b == (self.c == ' ' && self.flags.bits == 0),
    {
        self.c == ' ' && self.flags.bits == 0
    }
}

} // verus!
