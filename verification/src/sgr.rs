use vstd::prelude::*;
use crate::cell::Attrs;
use crate::color::TermColor;

verus! {

/// The pen: the foreground and background color and the attribute set that
/// subsequently printed characters receive. It persists across feed calls so
/// styling started in one read stays consistent into the next.
#[derive(Clone, Copy, Debug, PartialEq, Eq, Structural)]
pub struct Pen {
    pub fg: TermColor,
    pub bg: TermColor,
    pub attrs: Attrs,
}

/// The fully reset pen: default colors, no attributes.
pub open spec fn default_pen() -> Pen {
    Pen { fg: TermColor::Default, bg: TermColor::Default, attrs: Attrs::none_spec() }
}

pub fn pen_default() -> (r: Pen)
    ensures
        r == default_pen(),
{
    Pen { fg: TermColor::Default, bg: TermColor::Default, attrs: Attrs::none() }
}

/// The pen after processing the SGR parameter list from position `i` on.
/// Code 0 resets everything; 1-9 set single attributes; 22-29 clear them;
/// 30-37/90-97 and 40-47/100-107 set indexed colors; 39/49 restore default
/// colors; 38/48 consume an extended-color subsequence (selector 2 with
/// three RGB components, or selector 5 with one palette index) - when the
/// selector is unsupported or components are missing, the code and its
/// partial tail are dropped without touching the colors.
pub open spec fn sgr_from(pen: Pen, ps: Seq<u16>, i: int) -> Pen
    decreases ps.len() - i,
{
    if i < 0 || i >= ps.len() {
        pen
    } else {
        let p = ps[i];
        if p == 0 {
            sgr_from(default_pen(), ps, i + 1)
        } else if p == 1 {
            sgr_from(Pen { attrs: Attrs { bold: true, ..pen.attrs }, ..pen }, ps, i + 1)
        } else if p == 2 {
            sgr_from(Pen { attrs: Attrs { dim: true, ..pen.attrs }, ..pen }, ps, i + 1)
        } else if p == 3 {
            sgr_from(Pen { attrs: Attrs { italic: true, ..pen.attrs }, ..pen }, ps, i + 1)
        } else if p == 4 {
            sgr_from(Pen { attrs: Attrs { underline: true, ..pen.attrs }, ..pen }, ps, i + 1)
        } else if p == 5 {
            sgr_from(Pen { attrs: Attrs { blink: true, ..pen.attrs }, ..pen }, ps, i + 1)
        } else if p == 7 {
            sgr_from(Pen { attrs: Attrs { reverse: true, ..pen.attrs }, ..pen }, ps, i + 1)
        } else if p == 8 {
            sgr_from(Pen { attrs: Attrs { invisible: true, ..pen.attrs }, ..pen }, ps, i + 1)
        } else if p == 9 {
            sgr_from(Pen { attrs: Attrs { strikeout: true, ..pen.attrs }, ..pen }, ps, i + 1)
        } else if p == 22 {
            sgr_from(Pen { attrs: Attrs { bold: false, dim: false, ..pen.attrs }, ..pen }, ps, i + 1)
        } else if p == 23 {
            sgr_from(Pen { attrs: Attrs { italic: false, ..pen.attrs }, ..pen }, ps, i + 1)
        } else if p == 24 {
            sgr_from(Pen { attrs: Attrs { underline: false, ..pen.attrs }, ..pen }, ps, i + 1)
        } else if p == 25 {
            sgr_from(Pen { attrs: Attrs { blink: false, ..pen.attrs }, ..pen }, ps, i + 1)
        } else if p == 27 {
            sgr_from(Pen { attrs: Attrs { reverse: false, ..pen.attrs }, ..pen }, ps, i + 1)
        } else if p == 28 {
            sgr_from(Pen { attrs: Attrs { invisible: false, ..pen.attrs }, ..pen }, ps, i + 1)
        } else if p == 29 {
            sgr_from(Pen { attrs: Attrs { strikeout: false, ..pen.attrs }, ..pen }, ps, i + 1)
        } else if 30 <= p && p <= 37 {
            sgr_from(Pen { fg: TermColor::Ansi((p - 30) as u8), ..pen }, ps, i + 1)
        } else if p == 38 || p == 48 {
            if i + 4 < ps.len() && ps[i + 1] == 2 {
                let c = TermColor::Rgb(ps[i + 2] as u8, ps[i + 3] as u8, ps[i + 4] as u8);
                sgr_from(spec_set_ext(pen, p, c), ps, i + 5)
            } else if i + 2 < ps.len() && ps[i + 1] == 5 {
                let c = TermColor::Ansi256(ps[i + 2] as u8);
                sgr_from(spec_set_ext(pen, p, c), ps, i + 3)
            } else {
                pen
            }
        } else if p == 39 {
            sgr_from(Pen { fg: TermColor::Default, ..pen }, ps, i + 1)
        } else if 40 <= p && p <= 47 {
            sgr_from(Pen { bg: TermColor::Ansi((p - 40) as u8), ..pen }, ps, i + 1)
        } else if p == 49 {
            sgr_from(Pen { bg: TermColor::Default, ..pen }, ps, i + 1)
        } else if 90 <= p && p <= 97 {
            sgr_from(Pen { fg: TermColor::Ansi((p - 90 + 8) as u8), ..pen }, ps, i + 1)
        } else if 100 <= p && p <= 107 {
            sgr_from(Pen { bg: TermColor::Ansi((p - 100 + 8) as u8), ..pen }, ps, i + 1)
        } else {
            sgr_from(pen, ps, i + 1)
        }
    }
}

/// The extended color lands on the foreground for code 38, the background
/// for code 48.
pub open spec fn spec_set_ext(pen: Pen, p: u16, c: TermColor) -> Pen {
    if p == 38 {
        Pen { fg: c, ..pen }
    } else {
        Pen { bg: c, ..pen }
    }
}

/// The pen after a whole SGR parameter list: an empty list means a full
/// reset, otherwise the codes apply left to right.
pub open spec fn sgr_apply(pen: Pen, ps: Seq<u16>) -> Pen {
    if ps.len() == 0 {
        default_pen()
    } else {
        sgr_from(pen, ps, 0)
    }
}

/// Applies an SGR parameter list to the pen.
pub fn handle_sgr(pen: &mut Pen, ps: &Vec<u16>)
    ensures
        *final(pen) == sgr_apply(*old(pen), ps@),
{
    if ps.len() == 0 {
        *pen = pen_default();
        return ;
    }
    let mut i: usize = 0;
    while i < ps.len()
        invariant
            i <= ps@.len(),
            sgr_from(*pen, ps@, i as int) == sgr_from(*old(pen), ps@, 0),
        decreases ps@.len() - i,
    {
        i = sgr_step(pen, ps, i);
    }
}

/// One step of SGR processing at position `i`; hands back the next position.
#[verifier::rlimit(100)]
#[verifier::spinoff_prover]
fn sgr_step(pen: &mut Pen, ps: &Vec<u16>, i: usize) -> (next: usize)
    requires
        i < ps@.len(),
    ensures
        i < next <= ps@.len(),
        sgr_from(*final(pen), ps@, next as int) == sgr_from(*old(pen), ps@, i as int),
{
    let n = ps.len();
    let mut i = i;
    {
        let p = ps[i];
        if p == 0 {
            *pen = pen_default();
            i += 1;
        } else if p == 1 {
            pen.attrs.bold = true;
            i += 1;
        } else if p == 2 {
            pen.attrs.dim = true;
            i += 1;
        } else if p == 3 {
            pen.attrs.italic = true;
            i += 1;
        } else if p == 4 {
            pen.attrs.underline = true;
            i += 1;
        } else if p == 5 {
            pen.attrs.blink = true;
            i += 1;
        } else if p == 7 {
            pen.attrs.reverse = true;
            i += 1;
        } else if p == 8 {
            pen.attrs.invisible = true;
            i += 1;
        } else if p == 9 {
            pen.attrs.strikeout = true;
            i += 1;
        } else if p == 22 {
            pen.attrs.bold = false;
            pen.attrs.dim = false;
            i += 1;
        } else if p == 23 {
            pen.attrs.italic = false;
            i += 1;
        } else if p == 24 {
            pen.attrs.underline = false;
            i += 1;
        } else if p == 25 {
            pen.attrs.blink = false;
            i += 1;
        } else if p == 27 {
            pen.attrs.reverse = false;
            i += 1;
        } else if p == 28 {
            pen.attrs.invisible = false;
            i += 1;
        } else if p == 29 {
            pen.attrs.strikeout = false;
            i += 1;
        } else if 30 <= p && p <= 37 {
            pen.fg = TermColor::Ansi((p - 30) as u8);
            i += 1;
        } else if p == 38 || p == 48 {
            if n - i > 4 && ps[i + 1] == 2 {
                let c = TermColor::Rgb(ps[i + 2] as u8, ps[i + 3] as u8, ps[i + 4] as u8);
                if p == 38 {
                    pen.fg = c;
                } else {
                    pen.bg = c;
                }
                i += 5;
            } else if n - i > 2 && ps[i + 1] == 5 {
                let c = TermColor::Ansi256(ps[i + 2] as u8);
                if p == 38 {
                    pen.fg = c;
                } else {
                    pen.bg = c;
                }
                i += 3;
            } else {
                i = n;
            }
        } else if p == 39 {
            pen.fg = TermColor::Default;
            i += 1;
        } else if 40 <= p && p <= 47 {
            pen.bg = TermColor::Ansi((p - 40) as u8);
            i += 1;
        } else if p == 49 {
            pen.bg = TermColor::Default;
            i += 1;
        } else if 90 <= p && p <= 97 {
            pen.fg = TermColor::Ansi((p - 90 + 8) as u8);
            i += 1;
        } else if 100 <= p && p <= 107 {
            pen.bg = TermColor::Ansi((p - 100 + 8) as u8);
            i += 1;
        } else {
            i += 1;
        }
    }
    i
}

/// An SGR code 0, like an empty parameter list, fully resets the pen -
/// attributes and both colors - no matter what state preceded it.
pub proof fn lemma_sgr_zero_resets(pen: Pen)
    ensures
        sgr_apply(pen, seq![0u16]) == default_pen(),
        sgr_apply(pen, Seq::<u16>::empty()) == default_pen(),
{
    let s = seq![0u16];
    assert(sgr_from(pen, s, 0) == sgr_from(default_pen(), s, 1));
    assert(sgr_from(default_pen(), s, 1) == default_pen());
}

/// SGR 38;2;r;g;b sets the true-RGB foreground with exactly those
/// components, leaving everything else in the pen alone.
pub proof fn lemma_sgr_truecolor_fg(pen: Pen, r: u8, g: u8, b: u8)
    ensures
        sgr_apply(pen, seq![38u16, 2u16, r as u16, g as u16, b as u16]) == (Pen {
            fg: TermColor::Rgb(r, g, b),
            ..pen
        }),
{
    let s = seq![38u16, 2u16, r as u16, g as u16, b as u16];
    let p1 = Pen { fg: TermColor::Rgb(r, g, b), ..pen };
    assert(sgr_from(pen, s, 0) == sgr_from(p1, s, 5));
    assert(sgr_from(p1, s, 5) == p1);
}

/// SGR 38;5;idx sets the indexed-256 foreground with exactly that index,
/// leaving everything else in the pen alone.
pub proof fn lemma_sgr_indexed_fg(pen: Pen, idx: u8)
    ensures
        sgr_apply(pen, seq![38u16, 5u16, idx as u16]) == (Pen { fg: TermColor::Ansi256(idx), ..pen }),
{
    let s = seq![38u16, 5u16, idx as u16];
    let p1 = Pen { fg: TermColor::Ansi256(idx), ..pen };
    assert(sgr_from(pen, s, 0) == sgr_from(p1, s, 3));
    assert(sgr_from(p1, s, 3) == p1);
}

/// A malformed extended-color sequence - an unsupported selector after 38,
/// or missing components - leaves the pen, its foreground included,
/// entirely unchanged.
pub proof fn lemma_sgr_malformed_extended(pen: Pen, sel: u16)
    requires
        sel != 2,
        sel != 5,
    ensures
        sgr_apply(pen, seq![38u16, sel]) == pen,
        sgr_apply(pen, seq![38u16, 2u16, 10u16]) == pen,
{
    let s = seq![38u16, sel];
    assert(sgr_from(pen, s, 0) == pen);
    let s2 = seq![38u16, 2u16, 10u16];
    assert(sgr_from(pen, s2, 0) == pen);
}

} // verus!
