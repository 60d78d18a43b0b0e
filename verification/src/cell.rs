use vstd::prelude::*;
use crate::color::TermColor;

verus! {

/// The attribute bitset of one cell: bold, dim, italic, underline, blink,
/// reverse, invisible, strikeout.
#[derive(Clone, Copy, Debug, PartialEq, Eq, Structural)]
pub struct Attrs {
    pub bold: bool,
    pub dim: bool,
    pub italic: bool,
    pub underline: bool,
    pub blink: bool,
    pub reverse: bool,
    pub invisible: bool,
    pub strikeout: bool,
}

impl Attrs {
    /// The attribute set with every flag cleared.
    pub open spec fn none_spec() -> Attrs {
        Attrs {
            bold: false,
            dim: false,
            italic: false,
            underline: false,
            blink: false,
            reverse: false,
            invisible: false,
            strikeout: false,
        }
    }

    pub fn none() -> (r: Attrs)
        ensures
            r == Attrs::none_spec(),
    {
        Attrs {
            bold: false,
            dim: false,
            italic: false,
            underline: false,
            blink: false,
            reverse: false,
            invisible: false,
            strikeout: false,
        }
    }
}

impl Default for Attrs {
    fn default() -> (r: Attrs)
        ensures
            r == Attrs::none_spec(),
    {
        Attrs::none()
    }
}

/// One grid position: a codepoint, its colors and attributes, and its
/// display width. Width 0 marks the trailing slot of a wide character;
/// printed cells have width 1 or 2.
#[derive(Clone, Copy, Debug, PartialEq, Eq, Structural)]
pub struct Cell {
    pub ch: char,
    pub fg: TermColor,
    pub bg: TermColor,
    pub attrs: Attrs,
    pub width: u8,
}

impl Cell {
    /// The default cell: a blank space, default colors, no attributes, width 1.
    pub open spec fn blank_spec() -> Cell {
        Cell { ch: ' ', fg: TermColor::Default, bg: TermColor::Default, attrs: Attrs::none_spec(), width: 1 }
    }

    pub fn blank() -> (r: Cell)
        ensures
            r == Cell::blank_spec(),
    {
        Cell { ch: ' ', fg: TermColor::Default, bg: TermColor::Default, attrs: Attrs::none(), width: 1 }
    }
}

impl Default for Cell {
    fn default() -> (r: Cell)
        ensures
            r == Cell::blank_spec(),
    {
        Cell::blank()
    }
}

} // verus!
