use vstd::prelude::*;

verus! {

/// The displayed column width that the Unicode tables assign to a codepoint:
/// `None` for a control character, otherwise a small count of columns. The
/// value depends on the codepoint alone.
pub uninterp spec fn width_opt(c: char) -> Option<usize>;

/// Relies on unicode_width::UnicodeWidthChar::width: the displayed width of a
/// codepoint per Unicode Standard Annex 11, a pure table lookup on the
/// codepoint alone.
#[verifier::external_body]
fn codepoint_width(c: char) -> (r: Option<usize>)
    ensures
        r == width_opt(c),
{
    unicode_width::UnicodeWidthChar::width(c)
}

/// The width a printed glyph occupies on the grid: the Unicode width with a
/// missing value read as 1, clamped into {1, 2}.
pub open spec fn glyph_width(c: char) -> int {
    match width_opt(c) {
        None => 1,
        Some(w) => if w < 1 {
            1
        } else if w > 2 {
            2
        } else {
            w as int
        },
    }
}

/// Computes the grid width of a glyph; always 1 or 2.
pub fn glyph_width_exec(c: char) -> (r: usize)
    ensures
        r == glyph_width(c),
        1 <= r <= 2,
{
    match codepoint_width(c) {
        None => 1,
        Some(w) => if w < 1 {
            1
        } else if w > 2 {
            2
        } else {
            w
        },
    }
}

} // verus!
