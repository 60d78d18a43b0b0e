use vstd::prelude::*;

verus! {

/// A cell's color, kept symbolic so a theme change can recolor existing
/// scrollback at render time: the terminal default, an indexed ANSI color
/// (0-7 base, 8-15 bright), an indexed 256-palette color, or true RGB.
#[derive(Clone, Copy, Debug, PartialEq, Eq, Structural)]
pub enum TermColor {
    Default,
    Ansi(u8),
    Ansi256(u8),
    Rgb(u8, u8, u8),
}

} // verus!
