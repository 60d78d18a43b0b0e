use vstd::prelude::*;
use vstd::utf8::{decode_utf8, valid_utf8};
use crate::grid::{
    Grid, GridView, spec_backspace, spec_carriage_return, spec_cursor_col,
    spec_cursor_down, spec_cursor_goto, spec_cursor_left, spec_cursor_right, spec_cursor_row,
    spec_cursor_up, spec_delete_chars, spec_erase_display, spec_erase_line, spec_insert_blanks,
    spec_new_grid, spec_newline, spec_put_char, spec_reverse_index, spec_scroll_down,
    spec_scroll_up, spec_set_scroll_region, spec_tab,
};
use crate::sgr::{default_pen, handle_sgr, pen_default, sgr_apply, Pen};

verus! {

/// The lexer's mode between two bytes of the control-sequence grammar:
/// ground text, an escape sequence (possibly with intermediates), a CSI
/// parameter list, an OSC string (possibly after ESC, awaiting the string
/// terminator), an inert DCS string, or the middle of a UTF-8 encoding.
#[derive(Clone, Copy, Debug, PartialEq, Eq, Structural)]
pub enum LexState {
    Ground,
    Escape,
    EscapeMid,
    CsiParam,
    OscString,
    OscEsc,
    Dcs,
    DcsEsc,
    Utf8Cont,
}

/// The mathematical model of the lexer state carried between bytes.
#[verifier::ext_equal]
pub struct LexView {
    pub state: LexState,
    pub params: Seq<u16>,
    pub cur_param: u16,
    pub saw_param: bool,
    pub osc: Seq<u8>,
    pub utf8_cp: u32,
    pub utf8_rem: u8,
    pub utf8_min: u32,
}

/// The mathematical model of a whole terminal session: the grid, the window
/// title, the pen, and the lexer state.
#[verifier::ext_equal]
pub struct TermView {
    pub grid: GridView,
    pub title: Seq<char>,
    pub pen: Pen,
    pub lex: LexView,
}

impl TermView {
    /// Well-formedness: the grid is well-formed, the parameter list and OSC
    /// buffer respect their caps, and a pending UTF-8 codepoint is bounded by
    /// how many continuation bytes are still owed.
    pub open spec fn wf(self) -> bool {
        &&& self.grid.wf()
        &&& self.lex.params.len() <= 32
        &&& self.lex.osc.len() <= 1024
        &&& (self.lex.state == LexState::Utf8Cont ==> {
            &&& 1 <= self.lex.utf8_rem <= 3
            &&& (self.lex.utf8_rem == 3 ==> self.lex.utf8_cp <= 0x07)
            &&& (self.lex.utf8_rem == 2 ==> self.lex.utf8_cp <= 0x1ff)
            &&& (self.lex.utf8_rem == 1 ==> self.lex.utf8_cp <= 0x7fff)
        })
    }
}

/// Relies on core's char::from_u32: the scalar with that value, or nothing
/// for a surrogate or a value past the Unicode maximum.
pub assume_specification[ char::from_u32 ](i: u32) -> (r: Option<char>)
    ensures
        r == (if (0xD800 <= i < 0xE000) || i > 0x10FFFF {
            Option::<char>::None
        } else {
            Option::Some(i as char)
        }),
;

/// Relies on std's String::from_utf8: the bytes decoded exactly when they
/// form valid UTF-8, an error otherwise.
#[verifier::external_body]
fn bytes_to_string(v: &Vec<u8>) -> (r: Option<String>)
    ensures
        match r {
            Some(s) => valid_utf8(v@) && s@ == decode_utf8(v@),
            None => !valid_utf8(v@),
        },
{
    match String::from_utf8(v.clone()) {
        Ok(s) => Some(s),
        Err(_) => None,
    }
}

/// The view with only the lexer mode replaced.
pub open spec fn with_state(v: TermView, s: LexState) -> TermView {
    TermView { lex: LexView { state: s, ..v.lex }, ..v }
}

/// A C0 control byte applied to the grid: line feed (also VT and FF),
/// carriage return, tab, backspace; every other control byte is absorbed.
pub open spec fn spec_execute(v: TermView, b: u8) -> TermView {
    if b == 0x0a || b == 0x0b || b == 0x0c {
        TermView { grid: spec_newline(v.grid), ..v }
    } else if b == 0x0d {
        TermView { grid: spec_carriage_return(v.grid), ..v }
    } else if b == 0x09 {
        TermView { grid: spec_tab(v.grid), ..v }
    } else if b == 0x08 {
        TermView { grid: spec_backspace(v.grid), ..v }
    } else {
        v
    }
}

/// A decoded character printed through the pen.
pub open spec fn spec_print(v: TermView, c: char) -> TermView {
    TermView { grid: spec_put_char(v.grid, c, v.pen.fg, v.pen.bg, v.pen.attrs), ..v }
}

/// The view with a fresh pending UTF-8 codepoint.
pub open spec fn start_utf8(v: TermView, rem: u8, cp: u32, min: u32) -> TermView {
    TermView {
        lex: LexView { state: LexState::Utf8Cont, utf8_rem: rem, utf8_cp: cp, utf8_min: min, ..v.lex },
        ..v
    }
}

/// One byte in ground mode: ESC opens a sequence; the C0 controls act on the
/// grid; printable ASCII prints; a UTF-8 leading byte starts a pending
/// codepoint; everything else (stray continuation bytes, invalid leading
/// bytes, DEL) is absorbed.
pub open spec fn spec_ground(v: TermView, b: u8) -> TermView {
    if b == 0x1b {
        with_state(v, LexState::Escape)
    } else if b < 0x20 {
        spec_execute(v, b)
    } else if b <= 0x7e {
        spec_print(v, b as char)
    } else if 0xc2 <= b && b <= 0xdf {
        start_utf8(v, 1, (b - 0xc0) as u32, 0x80)
    } else if 0xe0 <= b && b <= 0xef {
        start_utf8(v, 2, (b - 0xe0) as u32, 0x800)
    } else if 0xf0 <= b && b <= 0xf4 {
        start_utf8(v, 3, (b - 0xf0) as u32, 0x10000)
    } else {
        v
    }
}

/// One continuation byte of a pending UTF-8 codepoint: the payload bits are
/// appended; on the last owed byte the scalar prints if it is in range and
/// not overlong, and is dropped otherwise. A byte that is no continuation
/// byte drops the pending codepoint and is read again from ground mode.
pub open spec fn spec_utf8_cont(v: TermView, b: u8) -> TermView {
    if 0x80 <= b && b <= 0xbf {
        let cp = (v.lex.utf8_cp * 64 + (b - 0x80)) as u32;
        if v.lex.utf8_rem == 1 {
            let done = TermView {
                lex: LexView { state: LexState::Ground, utf8_rem: 0, utf8_cp: cp, ..v.lex },
                ..v
            };
            if cp >= v.lex.utf8_min && !(0xD800 <= cp < 0xE000) && cp <= 0x10FFFF {
                spec_print(done, cp as char)
            } else {
                done
            }
        } else {
            TermView {
                lex: LexView {
                    utf8_rem: (v.lex.utf8_rem - 1) as u8,
                    utf8_cp: cp,
                    ..v.lex
                },
                ..v
            }
        }
    } else {
        spec_ground(with_state(v, LexState::Ground), b)
    }
}

/// The first parameter of a CSI list, defaulting to 0 where unset.
pub open spec fn csi_p0(ps: Seq<u16>) -> u16 {
    if ps.len() > 0 {
        ps[0]
    } else {
        0
    }
}

/// The parameter at `i` of a CSI list, 1-based semantics: unset or 0 reads
/// as 1.
pub open spec fn csi_pn(ps: Seq<u16>, i: int) -> nat {
    let raw = if 0 <= i < ps.len() {
        ps[i]
    } else {
        1u16
    };
    if raw == 0 {
        1
    } else {
        raw as nat
    }
}

/// A complete CSI sequence applied by its final byte: cursor moves, erases,
/// scrolls, SGR, the scrolling region, absolute positioning, and in-line
/// delete/insert; an unrecognized final byte is a no-op.
pub open spec fn spec_csi_dispatch(v: TermView, ps: Seq<u16>, action: u8) -> TermView {
    if action == 0x41 {  // A
        TermView { grid: spec_cursor_up(v.grid, csi_pn(ps, 0)), ..v }
    } else if action == 0x42 {  // B
        TermView { grid: spec_cursor_down(v.grid, csi_pn(ps, 0)), ..v }
    } else if action == 0x43 {  // C
        TermView { grid: spec_cursor_right(v.grid, csi_pn(ps, 0)), ..v }
    } else if action == 0x44 {  // D
        TermView { grid: spec_cursor_left(v.grid, csi_pn(ps, 0)), ..v }
    } else if action == 0x48 || action == 0x66 {  // H, f
        TermView { grid: spec_cursor_goto(v.grid, csi_pn(ps, 0), csi_pn(ps, 1)), ..v }
    } else if action == 0x4a {  // J
        TermView { grid: spec_erase_display(v.grid, csi_p0(ps) as u8), ..v }
    } else if action == 0x4b {  // K
        TermView { grid: spec_erase_line(v.grid, csi_p0(ps) as u8), ..v }
    } else if action == 0x53 || action == 0x4c {  // S, L
        TermView { grid: spec_scroll_up(v.grid, csi_pn(ps, 0)), ..v }
    } else if action == 0x54 || action == 0x4d {  // T, M
        TermView { grid: spec_scroll_down(v.grid, csi_pn(ps, 0)), ..v }
    } else if action == 0x6d {  // m
        TermView { pen: sgr_apply(v.pen, ps), ..v }
    } else if action == 0x72 {  // r
        TermView { grid: spec_set_scroll_region(v.grid, csi_pn(ps, 0), csi_pn(ps, 1)), ..v }
    } else if action == 0x64 {  // d
        TermView { grid: spec_cursor_row(v.grid, csi_p0(ps) as nat), ..v }
    } else if action == 0x47 {  // G
        TermView { grid: spec_cursor_col(v.grid, csi_p0(ps) as nat), ..v }
    } else if action == 0x50 {  // P
        TermView { grid: spec_delete_chars(v.grid, csi_pn(ps, 0)), ..v }
    } else if action == 0x40 {  // @
        TermView { grid: spec_insert_blanks(v.grid, csi_pn(ps, 0)), ..v }
    } else {
        v
    }
}

/// One byte after ESC: `[` opens a CSI parameter list, `]` an OSC string,
/// `P` an inert DCS string; `M` is reverse index, the one freestanding ESC
/// action honored; an intermediate byte defers the final; C0 controls still
/// execute; any other final byte is a no-op.
pub open spec fn spec_escape(v: TermView, b: u8) -> TermView {
    if b == 0x5b {  // [
        TermView {
            lex: LexView {
                state: LexState::CsiParam,
                params: Seq::empty(),
                cur_param: 0,
                saw_param: false,
                ..v.lex
            },
            ..v
        }
    } else if b == 0x5d {  // ]
        TermView { lex: LexView { state: LexState::OscString, osc: Seq::empty(), ..v.lex }, ..v }
    } else if b == 0x50 {  // P
        with_state(v, LexState::Dcs)
    } else if b == 0x4d {  // M
        with_state(TermView { grid: spec_reverse_index(v.grid), ..v }, LexState::Ground)
    } else if b == 0x1b {
        v
    } else if b == 0x18 || b == 0x1a {
        with_state(v, LexState::Ground)
    } else if b < 0x20 {
        spec_execute(v, b)
    } else if b <= 0x2f {
        with_state(v, LexState::EscapeMid)
    } else {
        with_state(v, LexState::Ground)
    }
}

/// One byte after an ESC intermediate: further intermediates wait, a final
/// byte ends the sequence without effect (no such sequence is honored), and
/// cancellation and C0 controls behave as in an escape sequence.
pub open spec fn spec_escape_mid(v: TermView, b: u8) -> TermView {
    if b == 0x1b {
        with_state(v, LexState::Escape)
    } else if b == 0x18 || b == 0x1a {
        with_state(v, LexState::Ground)
    } else if b < 0x20 {
        spec_execute(v, b)
    } else if b <= 0x2f {
        v
    } else {
        with_state(v, LexState::Ground)
    }
}

/// One byte of a CSI parameter list: digits build the current parameter
/// (saturating), `;` finishes it (the list capped at 32), markers and
/// intermediates are absorbed, C0 controls execute, ESC and cancel abort,
/// and a final byte dispatches the sequence.
pub open spec fn spec_csi_byte(v: TermView, b: u8) -> TermView {
    if b == 0x1b {
        with_state(v, LexState::Escape)
    } else if b == 0x18 || b == 0x1a {
        with_state(v, LexState::Ground)
    } else if b < 0x20 {
        spec_execute(v, b)
    } else if 0x30 <= b && b <= 0x39 {
        let t = v.lex.cur_param * 10 + (b - 0x30);
        let cur = if t > 0xffff {
            0xffffu16
        } else {
            t as u16
        };
        TermView { lex: LexView { cur_param: cur, saw_param: true, ..v.lex }, ..v }
    } else if b == 0x3b {  // ;
        let ps = if v.lex.params.len() < 32 {
            v.lex.params.push(v.lex.cur_param)
        } else {
            v.lex.params
        };
        TermView { lex: LexView { params: ps, cur_param: 0, saw_param: true, ..v.lex }, ..v }
    } else if 0x40 <= b && b <= 0x7e {
        let ps = if v.lex.saw_param && v.lex.params.len() < 32 {
            v.lex.params.push(v.lex.cur_param)
        } else {
            v.lex.params
        };
        let v2 = TermView { lex: LexView { state: LexState::Ground, params: ps, ..v.lex }, ..v };
        spec_csi_dispatch(v2, ps, b)
    } else {
        v
    }
}

/// A finished OSC string applied: codes 0 and 2 set the window title from
/// the bytes after the first separator when they are valid UTF-8; every
/// other code, and a malformed payload, changes nothing.
pub open spec fn spec_osc_apply(v: TermView) -> TermView {
    let o = v.lex.osc;
    if o.len() >= 2 && (o[0] == 0x30 || o[0] == 0x32) && o[1] == 0x3b {
        let payload = o.subrange(2, o.len() as int);
        if valid_utf8(payload) {
            TermView { title: decode_utf8(payload), ..v }
        } else {
            v
        }
    } else {
        v
    }
}

/// One byte of an OSC string: BEL terminates and applies it, ESC awaits the
/// string terminator, cancel aborts, printable bytes accumulate up to the
/// buffer cap, and other C0 controls are absorbed.
pub open spec fn spec_osc_byte(v: TermView, b: u8) -> TermView {
    if b == 0x07 {
        with_state(spec_osc_apply(v), LexState::Ground)
    } else if b == 0x1b {
        with_state(v, LexState::OscEsc)
    } else if b == 0x18 || b == 0x1a {
        with_state(v, LexState::Ground)
    } else if b >= 0x20 {
        let o = if v.lex.osc.len() < 1024 {
            v.lex.osc.push(b)
        } else {
            v.lex.osc
        };
        TermView { lex: LexView { osc: o, ..v.lex }, ..v }
    } else {
        v
    }
}

/// The byte after ESC inside an OSC string: `\` completes the string
/// terminator and applies the string; any other byte applies the string and
/// is then read as the start of a fresh escape sequence.
pub open spec fn spec_osc_esc(v: TermView, b: u8) -> TermView {
    if b == 0x5c {  // backslash
        with_state(spec_osc_apply(v), LexState::Ground)
    } else {
        spec_escape(with_state(spec_osc_apply(v), LexState::Escape), b)
    }
}

/// One byte of an inert DCS string: nothing is interpreted; ESC awaits the
/// string terminator and cancel aborts.
pub open spec fn spec_dcs_byte(v: TermView, b: u8) -> TermView {
    if b == 0x1b {
        with_state(v, LexState::DcsEsc)
    } else if b == 0x18 || b == 0x1a {
        with_state(v, LexState::Ground)
    } else {
        v
    }
}

/// The byte after ESC inside a DCS string: `\` ends the string; any other
/// byte is read as the start of a fresh escape sequence.
pub open spec fn spec_dcs_esc(v: TermView, b: u8) -> TermView {
    if b == 0x5c {
        with_state(v, LexState::Ground)
    } else {
        spec_escape(with_state(v, LexState::Escape), b)
    }
}

/// The whole interpreter, one byte at a time: a pure transition function on
/// the session model, keyed by the lexer mode.
pub open spec fn spec_advance(v: TermView, b: u8) -> TermView {
    match v.lex.state {
        LexState::Ground => spec_ground(v, b),
        LexState::Escape => spec_escape(v, b),
        LexState::EscapeMid => spec_escape_mid(v, b),
        LexState::CsiParam => spec_csi_byte(v, b),
        LexState::OscString => spec_osc_byte(v, b),
        LexState::OscEsc => spec_osc_esc(v, b),
        LexState::Dcs => spec_dcs_byte(v, b),
        LexState::DcsEsc => spec_dcs_esc(v, b),
        LexState::Utf8Cont => spec_utf8_cont(v, b),
    }
}

/// A whole chunk of bytes fed through the interpreter in order.
pub open spec fn spec_feed(v: TermView, bytes: Seq<u8>) -> TermView
    decreases bytes.len(),
{
    if bytes.len() == 0 {
        v
    } else {
        spec_advance(spec_feed(v, bytes.drop_last()), bytes.last())
    }
}

/// A fresh session around a fresh grid: default pen, ground lexer state.
pub open spec fn spec_new_term(rows: nat, cols: nat, max_scrollback: nat, title: Seq<char>) -> TermView {
    TermView {
        grid: spec_new_grid(rows, cols, max_scrollback),
        title,
        pen: default_pen(),
        lex: LexView {
            state: LexState::Ground,
            params: Seq::empty(),
            cur_param: 0,
            saw_param: false,
            osc: Seq::empty(),
            utf8_cp: 0,
            utf8_rem: 0,
            utf8_min: 0,
        },
    }
}

/// Two bytes fed in order.
proof fn lemma_feed_two(v: TermView, b1: u8, b2: u8)
    ensures
        spec_feed(v, seq![b1, b2]) == spec_advance(spec_advance(v, b1), b2),
{
    reveal_with_fuel(spec_feed, 3);
    let bytes = seq![b1, b2];
    assert(bytes.drop_last() =~= seq![b1]);
    assert(seq![b1].drop_last() =~= Seq::<u8>::empty());
}

/// Three bytes fed in order.
proof fn lemma_feed_three(v: TermView, b1: u8, b2: u8, b3: u8)
    ensures
        spec_feed(v, seq![b1, b2, b3]) == spec_advance(
            spec_advance(spec_advance(v, b1), b2),
            b3,
        ),
{
    reveal_with_fuel(spec_feed, 2);
    let bytes = seq![b1, b2, b3];
    assert(bytes.drop_last() =~= seq![b1, b2]);
    lemma_feed_two(v, b1, b2);
}

/// Four bytes fed in order.
proof fn lemma_feed_four(v: TermView, b1: u8, b2: u8, b3: u8, b4: u8)
    ensures
        spec_feed(v, seq![b1, b2, b3, b4]) == spec_advance(
            spec_advance(spec_advance(spec_advance(v, b1), b2), b3),
            b4,
        ),
{
    reveal_with_fuel(spec_feed, 2);
    let bytes = seq![b1, b2, b3, b4];
    assert(bytes.drop_last() =~= seq![b1, b2, b3]);
    lemma_feed_three(v, b1, b2, b3);
}

/// The two-byte UTF-8 encoding of a scalar decodes through the machine.
#[verifier::rlimit(100)]
#[verifier::spinoff_prover]
proof fn lemma_feed_utf8_width2(v: TermView, c: char)
    requires
        v.lex.state == LexState::Ground,
        vstd::utf8::has_width_2_encoding(c as u32),
    ensures
        spec_feed(v, vstd::utf8::encode_scalar(c as u32)) == spec_print(
            TermView {
                lex: LexView { state: LexState::Ground, utf8_rem: 0, utf8_cp: c as u32, utf8_min: 0x80, ..v.lex },
                ..v
            },
            c,
        ),
{
    let s = c as u32;
    let b1 = vstd::utf8::leading_byte_width_2(s);
    let b2 = vstd::utf8::last_continuation_byte(s);
    assert(vstd::utf8::encode_scalar(s) =~= seq![b1, b2]);
    assert({
        &&& 0xc2 <= b1 <= 0xdf
        &&& 0x80 <= b2 <= 0xbf
        &&& (b1 as u32) - 0xc0 == (s >> 6) & 0x1f
        &&& ((s >> 6) & 0x1f) * 64 + ((b2 as u32) - 0x80) == s
    }) by (bit_vector)
        requires
            b1 == (0xC0 | ((s >> 6) & 0x1F) as u8),
            b2 == (0x80 | (s & 0x3F) as u8),
            0x80 <= s <= 0x7FF,
    ;
    lemma_feed_two(v, b1, b2);
    vstd::utf8::char_u32_cast(c, s);
}

/// The three-byte UTF-8 encoding of a scalar decodes through the machine.
#[verifier::rlimit(100)]
#[verifier::spinoff_prover]
proof fn lemma_feed_utf8_width3(v: TermView, c: char)
    requires
        v.lex.state == LexState::Ground,
        vstd::utf8::has_width_3_encoding(c as u32),
    ensures
        spec_feed(v, vstd::utf8::encode_scalar(c as u32)) == spec_print(
            TermView {
                lex: LexView { state: LexState::Ground, utf8_rem: 0, utf8_cp: c as u32, utf8_min: 0x800, ..v.lex },
                ..v
            },
            c,
        ),
{
    let s = c as u32;
    let b1 = vstd::utf8::leading_byte_width_3(s);
    let b2 = vstd::utf8::second_last_continuation_byte(s);
    let b3 = vstd::utf8::last_continuation_byte(s);
    assert(vstd::utf8::encode_scalar(s) =~= seq![b1, b2, b3]);
    assert({
        &&& 0xe0 <= b1 <= 0xef
        &&& 0x80 <= b2 <= 0xbf
        &&& 0x80 <= b3 <= 0xbf
        &&& (b1 as u32) - 0xe0 == (s >> 12) & 0x0f
        &&& ((s >> 12) & 0x0f) * 64 + ((b2 as u32) - 0x80) == (s >> 6)
        &&& (s >> 6) * 64 + ((b3 as u32) - 0x80) == s
        &&& (s >> 6) <= 0x3ff
    }) by (bit_vector)
        requires
            b1 == (0xE0 | ((s >> 12) & 0x0F) as u8),
            b2 == (0x80 | ((s >> 6) & 0x3F) as u8),
            b3 == (0x80 | (s & 0x3F) as u8),
            0x800 <= s <= 0xFFFF,
    ;
    lemma_feed_three(v, b1, b2, b3);
    vstd::utf8::char_u32_cast(c, s);
}

/// The four-byte UTF-8 encoding of a scalar decodes through the machine.
#[verifier::rlimit(100)]
#[verifier::spinoff_prover]
proof fn lemma_feed_utf8_width4(v: TermView, c: char)
    requires
        v.lex.state == LexState::Ground,
        vstd::utf8::has_width_4_encoding(c as u32),
    ensures
        spec_feed(v, vstd::utf8::encode_scalar(c as u32)) == spec_print(
            TermView {
                lex: LexView { state: LexState::Ground, utf8_rem: 0, utf8_cp: c as u32, utf8_min: 0x10000, ..v.lex },
                ..v
            },
            c,
        ),
{
    let s = c as u32;
    let b1 = vstd::utf8::leading_byte_width_4(s);
    let b2 = vstd::utf8::third_last_continuation_byte(s);
    let b3 = vstd::utf8::second_last_continuation_byte(s);
    let b4 = vstd::utf8::last_continuation_byte(s);
    assert(vstd::utf8::encode_scalar(s) =~= seq![b1, b2, b3, b4]);
    assert({
        &&& 0xf0 <= b1 <= 0xf4
        &&& 0x80 <= b2 <= 0xbf
        &&& 0x80 <= b3 <= 0xbf
        &&& 0x80 <= b4 <= 0xbf
        &&& (b1 as u32) - 0xf0 == (s >> 18) & 0x07
        &&& ((s >> 18) & 0x07) * 64 + ((b2 as u32) - 0x80) == (s >> 12)
        &&& (s >> 12) * 64 + ((b3 as u32) - 0x80) == (s >> 6)
        &&& (s >> 6) * 64 + ((b4 as u32) - 0x80) == s
        &&& (s >> 12) <= 0x1ff
        &&& (s >> 6) <= 0x7fff
    }) by (bit_vector)
        requires
            b1 == (0xF0 | ((s >> 18) & 0x7) as u8),
            b2 == (0x80 | ((s >> 12) & 0x3F) as u8),
            b3 == (0x80 | ((s >> 6) & 0x3F) as u8),
            b4 == (0x80 | (s & 0x3F) as u8),
            0x10000 <= s <= 0x10FFFF,
    ;
    lemma_feed_four(v, b1, b2, b3, b4);
    vstd::utf8::char_u32_cast(c, s);
}

/// The interpreter's incremental UTF-8 handling agrees with the standard
/// encoding: feeding the UTF-8 bytes of any character beyond ASCII, in
/// ground mode, prints exactly that character through the current pen - the
/// grid changes as one print, and pen and title stay as they were.
pub proof fn lemma_feed_encoded_char(v: TermView, c: char)
    requires
        v.lex.state == LexState::Ground,
        c as u32 >= 0x80,
    ensures
        ({
            let w = spec_feed(v, vstd::utf8::encode_scalar(c as u32));
            &&& w.grid == spec_put_char(v.grid, c, v.pen.fg, v.pen.bg, v.pen.attrs)
            &&& w.pen == v.pen
            &&& w.title == v.title
            &&& w.lex.state == LexState::Ground
        }),
{
    vstd::utf8::char_is_scalar(c);
    let s = c as u32;
    if vstd::utf8::has_width_2_encoding(s) {
        lemma_feed_utf8_width2(v, c);
    } else if vstd::utf8::has_width_3_encoding(s) {
        lemma_feed_utf8_width3(v, c);
    } else {
        lemma_feed_utf8_width4(v, c);
    }
}

/// Feeding one chunk and then another is the same as feeding their
/// concatenation: the pen, lexer state, and title carried between calls make
/// a control sequence split across two reads come out whole.
#[verifier::rlimit(100)]
#[verifier::spinoff_prover]
pub proof fn lemma_feed_append(v: TermView, a: Seq<u8>, b: Seq<u8>)
    ensures
        spec_feed(v, a + b) == spec_feed(spec_feed(v, a), b),
    decreases b.len(),
{
    if b.len() == 0 {
        assert(a + b =~= a);
    } else {
        lemma_feed_append(v, a, b.drop_last());
        assert((a + b).drop_last() =~= a + b.drop_last());
        assert((a + b).last() == b.last());
    }
}

/// The tail of a byte buffer from `start` on, copied out.
fn tail_from(v: &Vec<u8>, start: usize) -> (r: Vec<u8>)
    requires
        start <= v@.len(),
    ensures
        r@ == v@.subrange(start as int, v@.len() as int),
{
    let mut r: Vec<u8> = Vec::new();
    let mut i = start;
    while i < v.len()
        invariant
            start <= i <= v@.len(),
            r@.len() == i - start,
            forall|j: int| 0 <= j < r@.len() ==> r@[j] == v@[start + j],
        decreases v@.len() - i,
    {
        r.push(v[i]);
        i += 1;
    }
    proof {
        assert(r@ =~= v@.subrange(start as int, v@.len() as int));
    }
    r
}

/// One terminal session: the interpreter's lexer state, the pen, and the
/// window title, wrapped around one grid. Pen and lexer state persist across
/// separate feed calls, so a control sequence split between two reads from
/// the pseudo-terminal is interpreted as one.
pub struct TerminalState {
    pub grid: Grid,
    pub title: String,
    pen: Pen,
    state: LexState,
    params: Vec<u16>,
    cur_param: u16,
    saw_param: bool,
    osc: Vec<u8>,
    utf8_cp: u32,
    utf8_rem: u8,
    utf8_min: u32,
}

impl View for TerminalState {
    type V = TermView;

    closed spec fn view(&self) -> TermView {
        TermView {
            grid: self.grid@,
            title: self.title@,
            pen: self.pen,
            lex: LexView {
                state: self.state,
                params: self.params@,
                cur_param: self.cur_param,
                saw_param: self.saw_param,
                osc: self.osc@,
                utf8_cp: self.utf8_cp,
                utf8_rem: self.utf8_rem,
                utf8_min: self.utf8_min,
            },
        }
    }
}

/// The CSI parameter at `i` under 1-based semantics: unset or 0 reads as 1.
fn pn_exec(ps: &Vec<u16>, i: usize) -> (r: usize)
    ensures
        r == csi_pn(ps@, i as int),
{
    if i < ps.len() {
        let v = ps[i];
        if v == 0 {
            1
        } else {
            v as usize
        }
    } else {
        1
    }
}

/// The first CSI parameter, defaulting to 0 where unset.
fn p0_exec(ps: &Vec<u16>) -> (r: u16)
    ensures
        r == csi_p0(ps@),
{
    if ps.len() > 0 {
        ps[0]
    } else {
        0
    }
}

impl TerminalState {
    /// A fresh session: a blank grid of the given geometry, the default pen,
    /// and the ground lexer state.
    pub fn new(rows: usize, cols: usize, max_scrollback: usize) -> (t: TerminalState)
        requires
            1 <= rows <= 0xffff,
            1 <= cols <= 0xffff,
            max_scrollback <= 0x1000_0000,
        ensures
            t@.wf(),
            t@ == spec_new_term(rows as nat, cols as nat, max_scrollback as nat, "Spiltixal"@),
    {
        let t = TerminalState {
            grid: Grid::new(rows, cols, max_scrollback),
            title: "Spiltixal".to_owned(),
            pen: pen_default(),
            state: LexState::Ground,
            params: Vec::new(),
            cur_param: 0,
            saw_param: false,
            osc: Vec::new(),
            utf8_cp: 0,
            utf8_rem: 0,
            utf8_min: 0,
        };
        proof {
            assert(t@ =~~= spec_new_term(rows as nat, cols as nat, max_scrollback as nat, "Spiltixal"@));
        }
        t
    }

    /// Applies a C0 control byte to the grid.
    fn execute(&mut self, b: u8)
        requires
            old(self)@.wf(),
        ensures
            final(self)@.wf(),
            final(self)@ == spec_execute(old(self)@, b),
    {
        if b == 0x0a || b == 0x0b || b == 0x0c {
            self.grid.newline();
        } else if b == 0x0d {
            self.grid.carriage_return();
        } else if b == 0x09 {
            self.grid.tab();
        } else if b == 0x08 {
            self.grid.backspace();
        }
        proof {
            assert(self@ =~~= spec_execute(old(self)@, b));
        }
    }

    /// One byte in ground mode.
    fn step_ground(&mut self, b: u8)
        requires
            old(self)@.wf(),
        ensures
            final(self)@.wf(),
            final(self)@ == spec_ground(old(self)@, b),
    {
        if b == 0x1b {
            self.state = LexState::Escape;
        } else if b < 0x20 {
            self.execute(b);
        } else if b <= 0x7e {
            self.grid.put_char(b as char, self.pen.fg, self.pen.bg, self.pen.attrs);
        } else if 0xc2 <= b && b <= 0xdf {
            self.state = LexState::Utf8Cont;
            self.utf8_rem = 1;
            self.utf8_cp = (b - 0xc0) as u32;
            self.utf8_min = 0x80;
        } else if 0xe0 <= b && b <= 0xef {
            self.state = LexState::Utf8Cont;
            self.utf8_rem = 2;
            self.utf8_cp = (b - 0xe0) as u32;
            self.utf8_min = 0x800;
        } else if 0xf0 <= b && b <= 0xf4 {
            self.state = LexState::Utf8Cont;
            self.utf8_rem = 3;
            self.utf8_cp = (b - 0xf0) as u32;
            self.utf8_min = 0x10000;
        }
        proof {
            assert(self@ =~~= spec_ground(old(self)@, b));
        }
    }

    /// One continuation byte of a pending UTF-8 codepoint.
    fn step_utf8(&mut self, b: u8)
        requires
            old(self)@.wf(),
            old(self)@.lex.state == LexState::Utf8Cont,
        ensures
            final(self)@.wf(),
            final(self)@ == spec_utf8_cont(old(self)@, b),
    {
        if 0x80 <= b && b <= 0xbf {
            let cp = self.utf8_cp * 64 + ((b - 0x80) as u32);
            self.utf8_cp = cp;
            if self.utf8_rem == 1 {
                self.utf8_rem = 0;
                self.state = LexState::Ground;
                if cp >= self.utf8_min && !(0xd800 <= cp && cp < 0xe000) && cp <= 0x10ffff {
                    match char::from_u32(cp) {
                        Some(c) => {
                            self.grid.put_char(c, self.pen.fg, self.pen.bg, self.pen.attrs);
                        },
                        None => {
                            proof {
                                assert(false);
                            }
                        },
                    }
                }
            } else {
                self.utf8_rem = self.utf8_rem - 1;
            }
            proof {
                assert(self@ =~~= spec_utf8_cont(old(self)@, b));
            }
        } else {
            self.state = LexState::Ground;
            self.step_ground(b);
            proof {
                assert(self@ =~~= spec_utf8_cont(old(self)@, b));
            }
        }
    }

    /// One byte after ESC.
    fn step_escape(&mut self, b: u8)
        requires
            old(self)@.wf(),
        ensures
            final(self)@.wf(),
            final(self)@ == spec_escape(old(self)@, b),
    {
        if b == 0x5b {
            self.state = LexState::CsiParam;
            self.params.clear();
            self.cur_param = 0;
            self.saw_param = false;
        } else if b == 0x5d {
            self.state = LexState::OscString;
            self.osc.clear();
        } else if b == 0x50 {
            self.state = LexState::Dcs;
        } else if b == 0x4d {
            self.grid.reverse_index();
            self.state = LexState::Ground;
        } else if b == 0x1b {
        } else if b == 0x18 || b == 0x1a {
            self.state = LexState::Ground;
        } else if b < 0x20 {
            self.execute(b);
        } else if b <= 0x2f {
            self.state = LexState::EscapeMid;
        } else {
            self.state = LexState::Ground;
        }
        proof {
            assert(self@ =~~= spec_escape(old(self)@, b));
        }
    }

    /// One byte after an ESC intermediate.
    fn step_escape_mid(&mut self, b: u8)
        requires
            old(self)@.wf(),
        ensures
            final(self)@.wf(),
            final(self)@ == spec_escape_mid(old(self)@, b),
    {
        if b == 0x1b {
            self.state = LexState::Escape;
        } else if b == 0x18 || b == 0x1a {
            self.state = LexState::Ground;
        } else if b < 0x20 {
            self.execute(b);
        } else if b <= 0x2f {
        } else {
            self.state = LexState::Ground;
        }
        proof {
            assert(self@ =~~= spec_escape_mid(old(self)@, b));
        }
    }

    /// A complete CSI sequence applied by its final byte, over the finished
    /// parameter list.
    fn csi_dispatch(&mut self, action: u8)
        requires
            old(self)@.wf(),
        ensures
            final(self)@.wf(),
            final(self)@ == spec_csi_dispatch(old(self)@, old(self)@.lex.params, action),
    {
        if action == 0x41 {
            let n = pn_exec(&self.params, 0);
            self.grid.cursor_up(n);
        } else if action == 0x42 {
            let n = pn_exec(&self.params, 0);
            self.grid.cursor_down(n);
        } else if action == 0x43 {
            let n = pn_exec(&self.params, 0);
            self.grid.cursor_right(n);
        } else if action == 0x44 {
            let n = pn_exec(&self.params, 0);
            self.grid.cursor_left(n);
        } else if action == 0x48 || action == 0x66 {
            let r = pn_exec(&self.params, 0);
            let c = pn_exec(&self.params, 1);
            self.grid.cursor_goto(r, c);
        } else if action == 0x4a {
            let p0 = p0_exec(&self.params);
            self.grid.erase_display(p0 as u8);
        } else if action == 0x4b {
            let p0 = p0_exec(&self.params);
            self.grid.erase_line(p0 as u8);
        } else if action == 0x53 || action == 0x4c {
            let n = pn_exec(&self.params, 0);
            self.grid.scroll_up(n);
        } else if action == 0x54 || action == 0x4d {
            let n = pn_exec(&self.params, 0);
            self.grid.scroll_down(n);
        } else if action == 0x6d {
            handle_sgr(&mut self.pen, &self.params);
        } else if action == 0x72 {
            let t = pn_exec(&self.params, 0);
            let bt = pn_exec(&self.params, 1);
            self.grid.set_scroll_region(t, bt);
        } else if action == 0x64 {
            let p0 = p0_exec(&self.params);
            self.grid.cursor_row(p0 as usize);
        } else if action == 0x47 {
            let p0 = p0_exec(&self.params);
            self.grid.cursor_col(p0 as usize);
        } else if action == 0x50 {
            let n = pn_exec(&self.params, 0);
            self.grid.delete_chars(n);
        } else if action == 0x40 {
            let n = pn_exec(&self.params, 0);
            self.grid.insert_blanks(n);
        }
        proof {
            assert(self@ =~~= spec_csi_dispatch(old(self)@, old(self)@.lex.params, action));
        }
    }

    /// One byte of a CSI parameter list.
    fn step_csi(&mut self, b: u8)
        requires
            old(self)@.wf(),
        ensures
            final(self)@.wf(),
            final(self)@ == spec_csi_byte(old(self)@, b),
    {
        if b == 0x1b {
            self.state = LexState::Escape;
        } else if b == 0x18 || b == 0x1a {
            self.state = LexState::Ground;
        } else if b < 0x20 {
            self.execute(b);
        } else if 0x30 <= b && b <= 0x39 {
            let t: u32 = (self.cur_param as u32) * 10 + ((b - 0x30) as u32);
            self.cur_param = if t > 0xffff {
                0xffff
            } else {
                t as u16
            };
            self.saw_param = true;
        } else if b == 0x3b {
            if self.params.len() < 32 {
                let c = self.cur_param;
                self.params.push(c);
            }
            self.cur_param = 0;
            self.saw_param = true;
        } else if 0x40 <= b && b <= 0x7e {
            if self.saw_param && self.params.len() < 32 {
                let c = self.cur_param;
                self.params.push(c);
            }
            self.state = LexState::Ground;
            self.csi_dispatch(b);
        }
        proof {
            assert(self@ =~~= spec_csi_byte(old(self)@, b));
        }
    }

    /// A finished OSC string applied to the title.
    fn osc_apply(&mut self)
        requires
            old(self)@.wf(),
        ensures
            final(self)@.wf(),
            final(self)@ == spec_osc_apply(old(self)@),
    {
        if self.osc.len() >= 2 {
            let c0 = self.osc[0];
            let c1 = self.osc[1];
            if (c0 == 0x30 || c0 == 0x32) && c1 == 0x3b {
                let payload = tail_from(&self.osc, 2);
                match bytes_to_string(&payload) {
                    Some(s) => {
                        self.title = s;
                    },
                    None => {},
                }
            }
        }
        proof {
            assert(self@ =~~= spec_osc_apply(old(self)@));
        }
    }

    /// One byte of an OSC string.
    fn step_osc(&mut self, b: u8)
        requires
            old(self)@.wf(),
        ensures
            final(self)@.wf(),
            final(self)@ == spec_osc_byte(old(self)@, b),
    {
        if b == 0x07 {
            self.osc_apply();
            self.state = LexState::Ground;
        } else if b == 0x1b {
            self.state = LexState::OscEsc;
        } else if b == 0x18 || b == 0x1a {
            self.state = LexState::Ground;
        } else if b >= 0x20 {
            if self.osc.len() < 1024 {
                self.osc.push(b);
            }
        }
        proof {
            assert(self@ =~~= spec_osc_byte(old(self)@, b));
        }
    }

    /// The byte after ESC inside an OSC string.
    fn step_osc_esc(&mut self, b: u8)
        requires
            old(self)@.wf(),
        ensures
            final(self)@.wf(),
            final(self)@ == spec_osc_esc(old(self)@, b),
    {
        if b == 0x5c {
            self.osc_apply();
            self.state = LexState::Ground;
        } else {
            self.osc_apply();
            self.state = LexState::Escape;
            self.step_escape(b);
        }
        proof {
            assert(self@ =~~= spec_osc_esc(old(self)@, b));
        }
    }

    /// One byte of an inert DCS string.
    fn step_dcs(&mut self, b: u8)
        requires
            old(self)@.wf(),
        ensures
            final(self)@.wf(),
            final(self)@ == spec_dcs_byte(old(self)@, b),
    {
        if b == 0x1b {
            self.state = LexState::DcsEsc;
        } else if b == 0x18 || b == 0x1a {
            self.state = LexState::Ground;
        }
        proof {
            assert(self@ =~~= spec_dcs_byte(old(self)@, b));
        }
    }

    /// The byte after ESC inside a DCS string.
    fn step_dcs_esc(&mut self, b: u8)
        requires
            old(self)@.wf(),
        ensures
            final(self)@.wf(),
            final(self)@ == spec_dcs_esc(old(self)@, b),
    {
        if b == 0x5c {
            self.state = LexState::Ground;
        } else {
            self.state = LexState::Escape;
            self.step_escape(b);
        }
        proof {
            assert(self@ =~~= spec_dcs_esc(old(self)@, b));
        }
    }

    /// One byte through the interpreter.
    fn advance(&mut self, b: u8)
        requires
            old(self)@.wf(),
        ensures
            final(self)@.wf(),
            final(self)@ == spec_advance(old(self)@, b),
    {
        let st = self.state;
        match st {
            LexState::Ground => self.step_ground(b),
            LexState::Escape => self.step_escape(b),
            LexState::EscapeMid => self.step_escape_mid(b),
            LexState::CsiParam => self.step_csi(b),
            LexState::OscString => self.step_osc(b),
            LexState::OscEsc => self.step_osc_esc(b),
            LexState::Dcs => self.step_dcs(b),
            LexState::DcsEsc => self.step_dcs_esc(b),
            LexState::Utf8Cont => self.step_utf8(b),
        }
    }

    /// Feeds a whole chunk of bytes through the interpreter, in order. The
    /// pen, lexer state, and title persist for the next call.
    pub fn process_bytes(&mut self, bytes: &[u8])
        requires
            old(self)@.wf(),
        ensures
            final(self)@.wf(),
            final(self)@ == spec_feed(old(self)@, bytes@),
    {
        let n = bytes.len();
        let mut i: usize = 0;
        while i < n
            invariant
                i <= n,
                n == bytes@.len(),
                self@.wf(),
                self@ == spec_feed(old(self)@, bytes@.take(i as int)),
            decreases n - i,
        {
            let b = bytes[i];
            self.advance(b);
            proof {
                assert(bytes@.take(i + 1).drop_last() =~= bytes@.take(i as int));
                assert(bytes@.take(i + 1).last() == bytes@[i as int]);
            }
            i += 1;
        }
        proof {
            assert(bytes@.take(n as int) =~= bytes@);
        }
    }

    /// Resizes the grid; the pen, lexer state, and title are untouched.
    pub fn resize(&mut self, rows: usize, cols: usize)
        requires
            old(self)@.wf(),
            1 <= rows <= 0xffff,
            1 <= cols <= 0xffff,
        ensures
            final(self)@.wf(),
            final(self)@ == (TermView {
                grid: crate::grid::spec_resize(old(self)@.grid, rows as nat, cols as nat),
                ..old(self)@
            }),
    {
        self.grid.resize(rows, cols);
        proof {
            assert(self@ =~~= (TermView {
                grid: crate::grid::spec_resize(old(self)@.grid, rows as nat, cols as nat),
                ..old(self)@
            }));
        }
    }
}

} // verus!
