use spiltixal::color::TermColor;
use spiltixal::term::TerminalState;

fn row_string(t: &TerminalState, y: usize) -> String {
    t.grid.cells[y].iter().map(|c| c.ch).collect()
}

#[test]
fn printable_text_lands_left_to_right() {
    let mut t = TerminalState::new(3, 10, 100);
    t.process_bytes(b"hi there");
    assert_eq!(row_string(&t, 0), "hi there  ");
    assert_eq!((t.grid.cursor_x, t.grid.cursor_y), (8, 0));
}

#[test]
fn full_row_wraps_exactly_once() {
    let mut t = TerminalState::new(4, 10, 100);
    t.process_bytes(b"aaaaaaaaaa");
    // every column written once, cursor at the transient right edge
    assert_eq!(row_string(&t, 0), "aaaaaaaaaa");
    assert_eq!((t.grid.cursor_x, t.grid.cursor_y), (10, 0));
    // the next glyph wraps, exactly once
    t.process_bytes(b"b");
    assert_eq!(t.grid.cells[1][0].ch, 'b');
    assert_eq!((t.grid.cursor_x, t.grid.cursor_y), (1, 1));
    assert_eq!(row_string(&t, 0), "aaaaaaaaaa");
}

#[test]
fn wide_glyph_at_last_column_wraps_without_splitting() {
    let mut t = TerminalState::new(3, 4, 100);
    t.process_bytes(b"abc");
    t.process_bytes("世".as_bytes());
    // the last column of row 0 was never touched
    assert_eq!(row_string(&t, 0), "abc ");
    assert_eq!(t.grid.cells[1][0].ch, '世');
    assert_eq!(t.grid.cells[1][0].width, 2);
    assert_eq!(t.grid.cells[1][1].width, 0);
    assert_eq!((t.grid.cursor_x, t.grid.cursor_y), (2, 1));
}

#[test]
fn utf8_split_across_feeds() {
    let mut t = TerminalState::new(2, 5, 100);
    let bytes = "é".as_bytes();
    t.process_bytes(&bytes[..1]);
    t.process_bytes(&bytes[1..]);
    assert_eq!(t.grid.cells[0][0].ch, 'é');
    assert_eq!(t.grid.cursor_x, 1);
}

#[test]
fn four_byte_utf8_prints() {
    let mut t = TerminalState::new(2, 6, 100);
    t.process_bytes("🙂".as_bytes());
    assert_eq!(t.grid.cells[0][0].ch, '🙂');
    assert_eq!(t.grid.cells[0][0].width, 2);
    assert_eq!(t.grid.cursor_x, 2);
}

#[test]
fn zero_width_codepoint_clamped_to_one_column() {
    let mut t = TerminalState::new(2, 6, 100);
    // a combining accent occupies one cell in this model
    t.process_bytes("\u{0301}".as_bytes());
    assert_eq!(t.grid.cells[0][0].ch, '\u{0301}');
    assert_eq!(t.grid.cells[0][0].width, 1);
    assert_eq!(t.grid.cursor_x, 1);
}

#[test]
fn malformed_utf8_dropped_silently() {
    let mut t = TerminalState::new(2, 5, 100);
    // overlong encoding of '/' and a stray continuation byte
    t.process_bytes(&[0xc0, 0xaf, 0x80]);
    t.process_bytes(b"x");
    assert_eq!(t.grid.cells[0][0].ch, 'x');
    assert_eq!(t.grid.cursor_x, 1);
}

#[test]
fn control_bytes_move_cursor() {
    let mut t = TerminalState::new(3, 10, 100);
    t.process_bytes(b"a\tb");
    assert_eq!(t.grid.cells[0][8].ch, 'b');
    t.process_bytes(b"\rc");
    assert_eq!(t.grid.cells[0][0].ch, 'c');
    t.process_bytes(b"d\x08\x08e");
    assert_eq!(row_string(&t, 0), "ed      b ");
}

#[test]
fn newline_at_bottom_scrolls_into_scrollback() {
    let mut t = TerminalState::new(2, 2, 2);
    t.process_bytes(b"ab\r\ncd\r\nef\r\ngh\r\n");
    assert_eq!(t.grid.scrollback.len(), 2);
    assert_eq!(t.grid.scrollback[0][0].ch, 'c');
    assert_eq!(t.grid.scrollback[1][0].ch, 'e');
    assert_eq!(row_string(&t, 0), "gh");
}

#[test]
fn csi_cursor_movement_clamped() {
    let mut t = TerminalState::new(5, 10, 100);
    t.process_bytes(b"\x1b[3;4H");
    assert_eq!((t.grid.cursor_x, t.grid.cursor_y), (3, 2));
    t.process_bytes(b"\x1b[99A");
    assert_eq!(t.grid.cursor_y, 0);
    t.process_bytes(b"\x1b[2B\x1b[3C\x1b[1D");
    assert_eq!((t.grid.cursor_x, t.grid.cursor_y), (5, 2));
    t.process_bytes(b"\x1b[99C");
    assert_eq!(t.grid.cursor_x, 9);
    t.process_bytes(b"\x1b[7G\x1b[4d");
    assert_eq!((t.grid.cursor_x, t.grid.cursor_y), (6, 3));
}

#[test]
fn sgr_bold_red_then_full_reset() {
    let mut t = TerminalState::new(2, 10, 100);
    t.process_bytes(b"\x1b[1;31mA\x1b[0mB");
    let a = &t.grid.cells[0][0];
    assert_eq!(a.ch, 'A');
    assert!(a.attrs.bold);
    assert_eq!(a.fg, TermColor::Ansi(1));
    let b = &t.grid.cells[0][1];
    assert_eq!(b.ch, 'B');
    assert!(!b.attrs.bold);
    assert_eq!(b.fg, TermColor::Default);
    assert_eq!(b.bg, TermColor::Default);
}

#[test]
fn sgr_empty_list_resets_too() {
    let mut t = TerminalState::new(2, 10, 100);
    t.process_bytes(b"\x1b[4;7;44mA\x1b[mB");
    assert!(t.grid.cells[0][0].attrs.underline);
    assert!(t.grid.cells[0][0].attrs.reverse);
    assert_eq!(t.grid.cells[0][0].bg, TermColor::Ansi(4));
    let b = &t.grid.cells[0][1];
    assert!(!b.attrs.underline && !b.attrs.reverse);
    assert_eq!(b.bg, TermColor::Default);
}

#[test]
fn sgr_truecolor_and_indexed_foreground() {
    let mut t = TerminalState::new(2, 10, 100);
    t.process_bytes(b"\x1b[38;2;10;20;30mX");
    assert_eq!(t.grid.cells[0][0].fg, TermColor::Rgb(10, 20, 30));
    t.process_bytes(b"\x1b[38;5;196mY");
    assert_eq!(t.grid.cells[0][1].fg, TermColor::Ansi256(196));
    t.process_bytes(b"\x1b[48;5;17mZ");
    assert_eq!(t.grid.cells[0][2].bg, TermColor::Ansi256(17));
}

#[test]
fn sgr_malformed_extended_leaves_color_unchanged() {
    let mut t = TerminalState::new(2, 10, 100);
    t.process_bytes(b"\x1b[31mA\x1b[38;9mB");
    assert_eq!(t.grid.cells[0][1].fg, TermColor::Ansi(1));
    t.process_bytes(b"\x1b[38;2;10mC");
    assert_eq!(t.grid.cells[0][2].fg, TermColor::Ansi(1));
}

#[test]
fn sgr_bright_ranges() {
    let mut t = TerminalState::new(2, 10, 100);
    t.process_bytes(b"\x1b[97m\x1b[104ma");
    assert_eq!(t.grid.cells[0][0].fg, TermColor::Ansi(15));
    assert_eq!(t.grid.cells[0][0].bg, TermColor::Ansi(12));
}

#[test]
fn csi_split_across_feeds_is_one_sequence() {
    let mut t = TerminalState::new(2, 10, 100);
    t.process_bytes(b"\x1b[3");
    t.process_bytes(b"1mA");
    assert_eq!(t.grid.cells[0][0].fg, TermColor::Ansi(1));
}

#[test]
fn erase_display_sequence_resets_everything() {
    let mut t = TerminalState::new(3, 5, 100);
    t.process_bytes(b"one\r\ntwo\x1b[2J");
    assert_eq!((t.grid.cursor_x, t.grid.cursor_y), (0, 0));
    for row in &t.grid.cells {
        for c in row {
            assert_eq!(c.ch, ' ');
        }
    }
}

#[test]
fn delete_and_insert_characters() {
    let mut t = TerminalState::new(1, 6, 0);
    t.process_bytes(b"abcdef\r\x1b[2P");
    assert_eq!(row_string(&t, 0), "cdef  ");
    t.process_bytes(b"\x1b[1@");
    assert_eq!(row_string(&t, 0), " cdef ");
}

#[test]
fn scroll_region_narrows_scrolling() {
    let mut t = TerminalState::new(4, 1, 10);
    t.process_bytes(b"a\r\nb\r\nc\r\nd");
    // rows now a,b,c,d; narrow the region to rows 2..3 (1-based)
    t.process_bytes(b"\x1b[2;3r");
    assert_eq!((t.grid.scroll_top, t.grid.scroll_bot), (1, 2));
    // cursor into the region bottom, then a line feed scrolls only the region
    t.process_bytes(b"\x1b[3;1H\n");
    assert_eq!(row_string(&t, 0), "a");
    assert_eq!(row_string(&t, 1), "c");
    assert_eq!(row_string(&t, 2), " ");
    assert_eq!(row_string(&t, 3), "d");
    // the evicted region row went to scrollback
    assert_eq!(t.grid.scrollback.len(), 1);
    assert_eq!(t.grid.scrollback[0][0].ch, 'b');
}

#[test]
fn invalid_scroll_region_ignored() {
    let mut t = TerminalState::new(4, 2, 10);
    t.process_bytes(b"\x1b[3;2r");
    assert_eq!((t.grid.scroll_top, t.grid.scroll_bot), (0, 3));
}

#[test]
fn reverse_index_scrolls_region_down_at_top() {
    let mut t = TerminalState::new(2, 1, 10);
    t.process_bytes(b"a\r\nb");
    t.process_bytes(b"\x1b[1;1H\x1bM");
    assert_eq!(row_string(&t, 0), " ");
    assert_eq!(row_string(&t, 1), "a");
    // from below the top it only moves the cursor up
    t.process_bytes(b"\x1b[2;1H\x1bM");
    assert_eq!(t.grid.cursor_y, 0);
}

#[test]
fn osc_sets_title_via_bel_and_st() {
    let mut t = TerminalState::new(2, 5, 0);
    assert_eq!(t.title, "Spiltixal");
    t.process_bytes(b"\x1b]0;My Shell\x07");
    assert_eq!(t.title, "My Shell");
    t.process_bytes(b"\x1b]2;Other\x1b\\");
    assert_eq!(t.title, "Other");
}

#[test]
fn osc_unknown_code_ignored() {
    let mut t = TerminalState::new(2, 5, 0);
    t.process_bytes(b"\x1b]52;c;x\x07");
    assert_eq!(t.title, "Spiltixal");
}

#[test]
fn osc_title_multibyte() {
    let mut t = TerminalState::new(2, 5, 0);
    let mut seq: Vec<u8> = b"\x1b]0;h".to_vec();
    seq.extend_from_slice("é".as_bytes());
    seq.push(0x07);
    t.process_bytes(&seq);
    assert_eq!(t.title, "hé");
}

#[test]
fn unknown_csi_final_is_noop() {
    let mut t = TerminalState::new(2, 5, 0);
    t.process_bytes(b"x\x1b[?25hy\x1b[6nz");
    assert_eq!(row_string(&t, 0), "xyz  ");
}

#[test]
fn dcs_content_is_inert() {
    let mut t = TerminalState::new(2, 5, 0);
    t.process_bytes(b"\x1bPsomething ignored\x1b\\ok");
    assert_eq!(row_string(&t, 0), "ok   ");
}

#[test]
fn session_resize_delegates_to_grid() {
    let mut t = TerminalState::new(4, 6, 10);
    t.process_bytes(b"\x1b[4;6H");
    t.resize(2, 3);
    assert!(t.grid.cursor_x < 3 && t.grid.cursor_y < 2);
    assert_eq!(t.grid.cells.len(), 2);
    for row in &t.grid.cells {
        assert_eq!(row.len(), 3);
    }
}
