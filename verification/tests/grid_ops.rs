use spiltixal::cell::Cell;
use spiltixal::color::TermColor;
use spiltixal::grid::Grid;

fn row_string(row: &[Cell]) -> String {
    row.iter().map(|c| c.ch).collect()
}

#[test]
fn new_grid_geometry_and_defaults() {
    let g = Grid::new(4, 7, 100);
    assert_eq!(g.rows, 4);
    assert_eq!(g.cols, 7);
    assert_eq!(g.cells.len(), 4);
    for row in &g.cells {
        assert_eq!(row.len(), 7);
        for c in row {
            assert_eq!(c.ch, ' ');
            assert_eq!(c.fg, TermColor::Default);
            assert_eq!(c.bg, TermColor::Default);
            assert_eq!(c.width, 1);
            assert!(!c.attrs.bold);
        }
    }
    assert_eq!((g.cursor_x, g.cursor_y), (0, 0));
    assert_eq!((g.scroll_top, g.scroll_bot), (0, 3));
    assert!(g.scrollback.is_empty());
}

#[test]
fn scrollback_capped_oldest_dropped() {
    let mut g = Grid::new(2, 3, 2);
    let pen_fg = TermColor::Default;
    let pen_bg = TermColor::Default;
    let attrs = Default::default();
    // label row 0 then evict it, four times over
    for label in ['a', 'b', 'c', 'd'] {
        g.cursor_x = 0;
        g.cursor_y = 0;
        g.put_char(label, pen_fg, pen_bg, attrs);
        g.scroll_up(1);
    }
    // cap is 2: 'a' and 'b' were dropped, 'c' and 'd' kept in order
    assert_eq!(g.scrollback.len(), 2);
    assert_eq!(g.scrollback[0][0].ch, 'c');
    assert_eq!(g.scrollback[1][0].ch, 'd');
}

#[test]
fn scroll_up_many_never_exceeds_cap() {
    let mut g = Grid::new(3, 4, 5);
    g.scroll_up(17);
    assert_eq!(g.scrollback.len(), 5);
    assert_eq!(g.cells.len(), 3);
    for row in &g.cells {
        assert_eq!(row.len(), 4);
    }
}

#[test]
fn scroll_down_inserts_blank_at_top() {
    let mut g = Grid::new(3, 2, 10);
    g.put_char('x', TermColor::Default, TermColor::Default, Default::default());
    g.scroll_down(1);
    assert_eq!(g.cells[1][0].ch, 'x');
    assert_eq!(g.cells[0][0].ch, ' ');
    assert!(g.scrollback.is_empty());
}

#[test]
fn erase_line_modes() {
    let mut g = Grid::new(1, 5, 0);
    for ch in ['a', 'b', 'c', 'd', 'e'] {
        g.put_char(ch, TermColor::Default, TermColor::Default, Default::default());
    }
    g.cursor_x = 2;
    let mut g0 = Grid::new(1, 5, 0);
    g0.cells = g.cells.clone();
    g0.cursor_x = 2;
    g0.erase_line(0);
    assert_eq!(row_string(&g0.cells[0]), "ab   ");
    let mut g1 = Grid::new(1, 5, 0);
    g1.cells = g.cells.clone();
    g1.cursor_x = 2;
    g1.erase_line(1);
    assert_eq!(row_string(&g1.cells[0]), "   de");
    let mut g2 = Grid::new(1, 5, 0);
    g2.cells = g.cells.clone();
    g2.cursor_x = 2;
    g2.erase_line(2);
    assert_eq!(row_string(&g2.cells[0]), "     ");
    // unknown mode is absorbed unchanged
    let mut g9 = Grid::new(1, 5, 0);
    g9.cells = g.cells.clone();
    g9.cursor_x = 2;
    g9.erase_line(9);
    assert_eq!(row_string(&g9.cells[0]), "abcde");
}

#[test]
fn erase_display_whole_screen_resets_cursor() {
    let mut g = Grid::new(3, 3, 0);
    for ch in ['x', 'y', 'z'] {
        g.put_char(ch, TermColor::Default, TermColor::Default, Default::default());
    }
    g.cursor_x = 2;
    g.cursor_y = 1;
    g.erase_display(2);
    assert_eq!((g.cursor_x, g.cursor_y), (0, 0));
    for row in &g.cells {
        for c in row {
            assert_eq!(c.ch, ' ');
            assert_eq!(c.width, 1);
        }
    }
}

#[test]
fn erase_display_from_cursor() {
    let mut g = Grid::new(2, 2, 0);
    for ch in ['a', 'b'] {
        g.put_char(ch, TermColor::Default, TermColor::Default, Default::default());
    }
    g.cursor_y = 1;
    g.cursor_x = 0;
    for ch in ['c', 'd'] {
        g.put_char(ch, TermColor::Default, TermColor::Default, Default::default());
    }
    g.cursor_x = 1;
    g.cursor_y = 0;
    g.erase_display(0);
    assert_eq!(row_string(&g.cells[0]), "a ");
    assert_eq!(row_string(&g.cells[1]), "  ");
}

#[test]
fn resize_smaller_then_larger_keeps_cursor_in_bounds() {
    let mut g = Grid::new(6, 8, 10);
    g.cursor_x = 7;
    g.cursor_y = 5;
    g.resize(2, 3);
    assert!(g.cursor_x < 3 && g.cursor_y < 2);
    assert_eq!(g.cells.len(), 2);
    for row in &g.cells {
        assert_eq!(row.len(), 3);
    }
    g.resize(10, 20);
    assert!(g.cursor_x < 20 && g.cursor_y < 10);
    assert_eq!(g.cells.len(), 10);
    for row in &g.cells {
        assert_eq!(row.len(), 20);
    }
    assert_eq!(g.scroll_bot, 9);
}

#[test]
fn visible_row_maps_scrollback_and_live() {
    let mut g = Grid::new(2, 1, 10);
    g.put_char('a', TermColor::Default, TermColor::Default, Default::default());
    g.scroll_up(1);  // 'a' row into scrollback
    g.cursor_x = 0;
    g.put_char('b', TermColor::Default, TermColor::Default, Default::default());
    // offset 0: live bottom
    assert_eq!(g.visible_row(0).unwrap()[0].ch, 'b');
    g.set_scroll_offset(1);
    assert_eq!(g.visible_row(0).unwrap()[0].ch, 'a');
    assert_eq!(g.visible_row(1).unwrap()[0].ch, 'b');
    assert!(g.visible_row(3).is_none());
}

#[test]
fn set_scroll_offset_clamps_to_scrollback() {
    let mut g = Grid::new(2, 1, 10);
    g.scroll_up(3);
    g.set_scroll_offset(99);
    assert_eq!(g.scroll_offset, 3);
}

#[test]
fn wide_char_writes_continuation_cell() {
    let mut g = Grid::new(1, 4, 0);
    g.put_char('世', TermColor::Default, TermColor::Default, Default::default());
    assert_eq!(g.cells[0][0].ch, '世');
    assert_eq!(g.cells[0][0].width, 2);
    assert_eq!(g.cells[0][1].width, 0);
    assert_eq!(g.cursor_x, 2);
}
